//! Character-level text helpers shared by every parser in the crate.
//!
//! Text is modelled as a `Seq<char>`. Executable code turns a string into a
//! vector of characters once and then works on sub-slices of it.

pub mod laws;

use vstd::prelude::*;

verus! {

/// `String::push` appends the character to the end of the string.
pub assume_specification[ String::push ](s: &mut String, c: char)
    ensures
        final(s)@ == old(s)@.push(c),
;

/// The characters of a string, in order.
pub fn chars(s: &str) -> (r: Vec<char>)
    ensures
        r@ == s@,
{
    let mut out: Vec<char> = Vec::new();
    for c in it: s.chars()
        invariant
            it.seq() == s@,
            out@ == it.seq().take(it.index() as int),
    {
        out.push(c);
    }
    out
}

/// The string made of the given characters.
pub fn text(c: &[char]) -> (r: String)
    ensures
        r@ == c@,
{
    let mut out: String = String::new();
    let mut i: usize = 0;
    while i < c.len()
        invariant
            i <= c@.len(),
            out@ == c@.take(i as int),
        decreases c@.len() - i,
    {
        out.push(c[i]);
        i = i + 1;
    }
    proof {
        assert(c@.take(c@.len() as int) =~= c@);
    }
    out
}

/// An owned copy of a string slice.
pub fn owned(s: &str) -> (r: String)
    ensures
        r@ == s@,
{
    s.to_owned()
}

/// The characters that Unicode lists as white space.
pub open spec fn is_space(c: char) -> bool {
    ||| 0x09 <= c as u32 <= 0x0d
    ||| c as u32 == 0x20
    ||| c as u32 == 0x85
    ||| c as u32 == 0xa0
    ||| c as u32 == 0x1680
    ||| 0x2000 <= c as u32 <= 0x200a
    ||| c as u32 == 0x2028
    ||| c as u32 == 0x2029
    ||| c as u32 == 0x202f
    ||| c as u32 == 0x205f
    ||| c as u32 == 0x3000
}

/// Reports whether `c` is white space.
pub fn space(c: char) -> (r: bool)
    ensures
        r == is_space(c),
{
    let v: u32 = c as u32;
    (0x09 <= v && v <= 0x0d) || v == 0x20 || v == 0x85 || v == 0xa0 || v == 0x1680 || (0x2000 <= v
        && v <= 0x200a) || v == 0x2028 || v == 0x2029 || v == 0x202f || v == 0x205f || v == 0x3000
}

/// The text without leading white space.
pub open spec fn trim_start_spec(s: Seq<char>) -> Seq<char>
    decreases s.len(),
{
    if s.len() > 0 && is_space(s[0]) {
        trim_start_spec(s.drop_first())
    } else {
        s
    }
}

/// The text without trailing white space.
pub open spec fn trim_end_spec(s: Seq<char>) -> Seq<char>
    decreases s.len(),
{
    if s.len() > 0 && is_space(s.last()) {
        trim_end_spec(s.drop_last())
    } else {
        s
    }
}

/// The text without leading and trailing white space.
pub open spec fn trim_spec(s: Seq<char>) -> Seq<char> {
    trim_end_spec(trim_start_spec(s))
}

/// Drops leading white space.
pub fn trim_start(s: &[char]) -> (r: &[char])
    ensures
        r@ == trim_start_spec(s@),
{
    let mut i: usize = 0;
    proof {
        assert(s@.skip(0) =~= s@);
    }
    while i < s.len() && space(s[i])
        invariant
            i <= s@.len(),
            trim_start_spec(s@) == trim_start_spec(s@.skip(i as int)),
        decreases s@.len() - i,
    {
        proof {
            assert(s@.skip(i as int).drop_first() =~= s@.skip(i + 1));
        }
        i = i + 1;
    }
    vstd::slice::slice_subrange(s, i, s.len())
}

/// Drops trailing white space.
pub fn trim_end(s: &[char]) -> (r: &[char])
    ensures
        r@ == trim_end_spec(s@),
{
    let mut n: usize = s.len();
    proof {
        assert(s@.take(n as int) =~= s@);
    }
    while n > 0 && space(s[n - 1])
        invariant
            n <= s@.len(),
            trim_end_spec(s@) == trim_end_spec(s@.take(n as int)),
        decreases n,
    {
        proof {
            assert(s@.take(n as int).drop_last() =~= s@.take(n - 1));
        }
        n = n - 1;
    }
    vstd::slice::slice_subrange(s, 0, n)
}

/// Drops white space at both ends.
pub fn trim(s: &[char]) -> (r: &[char])
    ensures
        r@ == trim_spec(s@),
{
    trim_end(trim_start(s))
}

/// The text without the trailing characters equal to `c`.
pub open spec fn trim_end_char_spec(s: Seq<char>, c: char) -> Seq<char>
    decreases s.len(),
{
    if s.len() > 0 && s.last() == c {
        trim_end_char_spec(s.drop_last(), c)
    } else {
        s
    }
}

/// The text without the leading characters equal to `c`.
pub open spec fn trim_start_char_spec(s: Seq<char>, c: char) -> Seq<char>
    decreases s.len(),
{
    if s.len() > 0 && s[0] == c {
        trim_start_char_spec(s.drop_first(), c)
    } else {
        s
    }
}

/// The text without leading and trailing characters equal to `c`.
pub open spec fn trim_char_spec(s: Seq<char>, c: char) -> Seq<char> {
    trim_end_char_spec(trim_start_char_spec(s, c), c)
}

/// Drops trailing characters equal to `c`.
pub fn trim_end_char(s: &[char], c: char) -> (r: &[char])
    ensures
        r@ == trim_end_char_spec(s@, c),
{
    let mut n: usize = s.len();
    proof {
        assert(s@.take(n as int) =~= s@);
    }
    while n > 0 && s[n - 1] == c
        invariant
            n <= s@.len(),
            trim_end_char_spec(s@, c) == trim_end_char_spec(s@.take(n as int), c),
        decreases n,
    {
        proof {
            assert(s@.take(n as int).drop_last() =~= s@.take(n - 1));
        }
        n = n - 1;
    }
    vstd::slice::slice_subrange(s, 0, n)
}

/// Drops leading characters equal to `c`.
pub fn trim_start_char(s: &[char], c: char) -> (r: &[char])
    ensures
        r@ == trim_start_char_spec(s@, c),
{
    let mut i: usize = 0;
    proof {
        assert(s@.skip(0) =~= s@);
    }
    while i < s.len() && s[i] == c
        invariant
            i <= s@.len(),
            trim_start_char_spec(s@, c) == trim_start_char_spec(s@.skip(i as int), c),
        decreases s@.len() - i,
    {
        proof {
            assert(s@.skip(i as int).drop_first() =~= s@.skip(i + 1));
        }
        i = i + 1;
    }
    vstd::slice::slice_subrange(s, i, s.len())
}

/// Drops characters equal to `c` at both ends.
pub fn trim_char(s: &[char], c: char) -> (r: &[char])
    ensures
        r@ == trim_char_spec(s@, c),
{
    trim_end_char(trim_start_char(s, c), c)
}

/// `s` starts with `p`.
pub open spec fn starts_with_spec(s: Seq<char>, p: Seq<char>) -> bool {
    p.len() <= s.len() && s.take(p.len() as int) == p
}

/// `s` ends with `p`.
pub open spec fn ends_with_spec(s: Seq<char>, p: Seq<char>) -> bool {
    p.len() <= s.len() && s.skip(s.len() - p.len()) == p
}

/// Reports whether `s` ends with `p`.
pub fn ends_with(s: &[char], p: &str) -> (r: bool)
    ensures
        r == ends_with_spec(s@, p@),
{
    let pat = chars(p);
    let total: usize = s.len();
    let n: usize = pat.len();
    if n > total {
        return false;
    }
    let tail = vstd::slice::slice_subrange(s, total - n, total);
    proof {
        assert(tail@ =~= s@.skip(total - n));
    }
    same(tail, pat.as_slice())
}

/// The text without its trailing repetitions of `p`.
pub open spec fn trim_end_text_spec(s: Seq<char>, p: Seq<char>) -> Seq<char>
    decreases s.len(),
{
    if p.len() > 0 && ends_with_spec(s, p) {
        trim_end_text_spec(s.take(s.len() - p.len()), p)
    } else {
        s
    }
}

/// Reports whether two slices hold the same characters.
pub fn same(a: &[char], b: &[char]) -> (r: bool)
    ensures
        r == (a@ == b@),
{
    if a.len() != b.len() {
        return false;
    }
    let mut i: usize = 0;
    while i < a.len()
        invariant
            i <= a@.len(),
            a@.len() == b@.len(),
            forall|j: int| 0 <= j < i ==> a@[j] == b@[j],
        decreases a@.len() - i,
    {
        if a[i] != b[i] {
            return false;
        }
        i = i + 1;
    }
    proof {
        assert(a@ =~= b@);
    }
    true
}

/// Reports whether a slice holds exactly the characters of a string.
pub fn is_text(a: &[char], s: &str) -> (r: bool)
    ensures
        r == (a@ == s@),
{
    same(a, chars(s).as_slice())
}

/// Reports whether two strings hold the same characters.
pub fn str_eq(a: &str, b: &str) -> (r: bool)
    ensures
        r == (a@ == b@),
{
    same(chars(a).as_slice(), chars(b).as_slice())
}

/// Reports whether `s` starts with `p`.
pub fn starts_with(s: &[char], p: &str) -> (r: bool)
    ensures
        r == starts_with_spec(s@, p@),
{
    let p = chars(p);
    p.len() <= s.len() && same(vstd::slice::slice_subrange(s, 0, p.len()), p.as_slice())
}

/// What follows the prefix `p` in `s`, when `s` starts with `p`.
pub open spec fn strip_prefix_spec(s: Seq<char>, p: Seq<char>) -> Option<Seq<char>> {
    if starts_with_spec(s, p) {
        Some(s.skip(p.len() as int))
    } else {
        None
    }
}

/// The view of an optional slice.
pub open spec fn slice_opt(o: Option<&[char]>) -> Option<Seq<char>> {
    match o {
        Some(s) => Some(s@),
        None => None,
    }
}

/// Drops the prefix `p`.
pub fn strip_prefix<'a>(s: &'a [char], p: &str) -> (r: Option<&'a [char]>)
    ensures
        slice_opt(r) == strip_prefix_spec(s@, p@),
{
    if starts_with(s, p) {
        let n: usize = chars(p).len();
        Some(vstd::slice::slice_subrange(s, n, s.len()))
    } else {
        None
    }
}

/// Drops trailing repetitions of `p`.
pub fn trim_end_text<'a>(s: &'a [char], p: &str) -> (r: &'a [char])
    ensures
        r@ == trim_end_text_spec(s@, p@),
{
    let p = chars(p);
    let k: usize = p.len();
    let mut n: usize = s.len();
    proof {
        assert(s@.take(n as int) =~= s@);
    }
    while k > 0 && k <= n && same(vstd::slice::slice_subrange(s, n - k, n), p.as_slice())
        invariant
            n <= s@.len(),
            k == p@.len(),
            trim_end_text_spec(s@, p@) == trim_end_text_spec(s@.take(n as int), p@),
        decreases n,
    {
        proof {
            assert(s@.take(n as int).skip(n - k) =~= s@.subrange(n - k, n as int));
            assert(s@.take(n as int).take(n - k) =~= s@.take(n - k));
        }
        n = n - k;
    }
    proof {
        if k > 0 && k <= n {
            assert(s@.take(n as int).skip(n - k) =~= s@.subrange(n - k, n as int));
        }
    }
    vstd::slice::slice_subrange(s, 0, n)
}

/// The position of the first `c`, or the length when there is none.
pub open spec fn char_index(s: Seq<char>, c: char) -> int
    decreases s.len(),
{
    if s.len() == 0 || s[0] == c {
        0
    } else {
        1 + char_index(s.drop_first(), c)
    }
}

/// The position of the first `c` lies within the text.
pub proof fn lemma_char_index(s: Seq<char>, c: char)
    ensures
        0 <= char_index(s, c) <= s.len(),
        char_index(s, c) < s.len() ==> s[char_index(s, c)] == c,
        forall|i: int| 0 <= i < char_index(s, c) ==> s[i] != c,
    decreases s.len(),
{
    if s.len() == 0 || s[0] == c {
    } else {
        lemma_char_index(s.drop_first(), c);
        assert forall|i: int| 0 <= i < char_index(s, c) implies s[i] != c by {
            if i > 0 {
                assert(s.drop_first()[i - 1] == s[i]);
            }
        }
    }
}

/// Finds the first `c`.
pub fn find_char(s: &[char], c: char) -> (r: usize)
    ensures
        r == char_index(s@, c),
        r <= s@.len(),
{
    let mut i: usize = 0;
    proof {
        assert(s@.skip(0) =~= s@);
    }
    while i < s.len() && s[i] != c
        invariant
            i <= s@.len(),
            char_index(s@, c) == i + char_index(s@.skip(i as int), c),
        decreases s@.len() - i,
    {
        proof {
            assert(s@.skip(i as int).drop_first() =~= s@.skip(i + 1));
        }
        i = i + 1;
    }
    i
}

/// The position of the first occurrence of `p`.
pub open spec fn text_index(s: Seq<char>, p: Seq<char>) -> Option<int>
    decreases s.len(),
{
    if s.len() < p.len() {
        None
    } else if starts_with_spec(s, p) {
        Some(0)
    } else if s.len() == 0 {
        None
    } else {
        match text_index(s.drop_first(), p) {
            Some(k) => Some(k + 1),
            None => None,
        }
    }
}

/// `p` occurs in `s`.
pub open spec fn contains_spec(s: Seq<char>, p: Seq<char>) -> bool {
    exists|k: int|
        0 <= k && k + p.len() <= s.len() && #[trigger] s.subrange(k, k + p.len()) == p
}

/// A first occurrence is found exactly when the text contains the pattern.
pub proof fn lemma_text_index(s: Seq<char>, p: Seq<char>)
    ensures
        text_index(s, p) is Some <==> contains_spec(s, p),
        text_index(s, p) matches Some(k) ==> 0 <= k && k + p.len() <= s.len() && s.subrange(
            k,
            k + p.len(),
        ) == p,
    decreases s.len(),
{
    if s.len() < p.len() {
    } else if starts_with_spec(s, p) {
        assert(s.subrange(0int, 0int + p.len()) =~= s.take(p.len() as int));
    } else if s.len() == 0 {
        if contains_spec(s, p) {
            let k = choose|k: int|
                0 <= k && k + p.len() <= s.len() && #[trigger] s.subrange(k, k + p.len()) == p;
            assert(s.subrange(k, k + p.len()) =~= s.take(p.len() as int));
        }
    } else {
        let t = s.drop_first();
        lemma_text_index(t, p);
        if contains_spec(s, p) {
            let k = choose|k: int|
                0 <= k && k + p.len() <= s.len() && #[trigger] s.subrange(k, k + p.len()) == p;
            if k == 0 {
                assert(s.subrange(0, p.len() as int) =~= s.take(p.len() as int));
            }
            let j = k - 1;
            assert(t.subrange(j, j + p.len()) =~= s.subrange(k, k + p.len()));
        }
        if text_index(t, p) is Some {
            let k = text_index(t, p)->0;
            let j = k + 1;
            assert(s.subrange(j, j + p.len()) =~= t.subrange(k, k + p.len()));
        }
    }
}

/// Finds the first occurrence of `p`.
pub fn find_text(s: &[char], p: &str) -> (r: Option<usize>)
    ensures
        match r {
            Some(k) => text_index(s@, p@) == Some(k as int) && k + p@.len() <= s@.len(),
            None => text_index(s@, p@) is None,
        },
{
    let pat = chars(p);
    let total: usize = s.len();
    let n: usize = pat.len();
    if n > total {
        return None;
    }
    let last: usize = total - n;
    let mut i: usize = 0;
    proof {
        assert(s@.skip(0) =~= s@);
    }
    loop
        invariant
            pat@ == p@,
            n == p@.len(),
            n + last == total,
            total == s@.len(),
            i <= last,
            text_index(s@, p@) == (match text_index(s@.skip(i as int), p@) {
                Some(k) => Some(k + i),
                None => None,
            }),
        decreases last - i,
    {
        let ghost rest = s@.skip(i as int);
        proof {
            assert(rest.take(n as int) =~= s@.subrange(i as int, i + n));
        }
        if same(vstd::slice::slice_subrange(s, i, i + n), pat.as_slice()) {
            return Some(i);
        }
        proof {
            if rest.len() > 0 {
                assert(rest.drop_first() =~= s@.skip(i + 1));
                assert(i == last ==> text_index(rest.drop_first(), p@) is None);
            }
        }
        if i == last {
            return None;
        }
        i = i + 1;
    }
}

/// Reports whether `p` occurs in `s`.
pub fn contains(s: &[char], p: &str) -> (r: bool)
    ensures
        r == contains_spec(s@, p@),
{
    proof {
        lemma_text_index(s@, p@);
    }
    find_text(s, p).is_some()
}

/// The views of a list of slices.
pub open spec fn slice_views(v: Seq<&[char]>) -> Seq<Seq<char>> {
    v.map_values(|s: &[char]| s@)
}

/// The pieces between the occurrences of `c`.
pub open spec fn split_char_spec(s: Seq<char>, c: char) -> Seq<Seq<char>>
    decreases s.len(),
{
    let k = char_index(s, c);
    if 0 <= k < s.len() {
        seq![s.take(k)] + split_char_spec(s.skip(k + 1), c)
    } else {
        seq![s]
    }
}

/// Splits at every `c`.
pub fn split_char<'a>(s: &'a [char], c: char) -> (r: Vec<&'a [char]>)
    ensures
        slice_views(r@) == split_char_spec(s@, c),
{
    let mut out: Vec<&'a [char]> = Vec::new();
    let mut rest: &'a [char] = s;
    proof {
        assert(slice_views(out@) + split_char_spec(rest@, c) =~= split_char_spec(s@, c));
    }
    loop
        invariant
            slice_views(out@) + split_char_spec(rest@, c) == split_char_spec(s@, c),
        decreases rest@.len(),
    {
        let k: usize = find_char(rest, c);
        let ghost before = out@;
        if k == rest.len() {
            out.push(rest);
            proof {
                assert(slice_views(out@) =~= slice_views(before).push(rest@));
                assert(slice_views(before) + seq![rest@] =~= slice_views(before).push(rest@));
            }
            return out;
        }
        let piece: &'a [char] = vstd::slice::slice_subrange(rest, 0, k);
        out.push(piece);
        let next: &'a [char] = vstd::slice::slice_subrange(rest, k + 1, rest.len());
        proof {
            assert(piece@ =~= rest@.take(k as int));
            assert(next@ =~= rest@.skip(k + 1));
            assert(slice_views(out@) =~= slice_views(before).push(piece@));
            assert(slice_views(out@) + split_char_spec(next@, c) =~= slice_views(before) + (
            seq![piece@] + split_char_spec(next@, c)));
        }
        rest = next;
    }
}

/// The position of the first white space, or the length when there is none.
pub open spec fn space_index(s: Seq<char>) -> int
    decreases s.len(),
{
    if s.len() == 0 || is_space(s[0]) {
        0
    } else {
        1 + space_index(s.drop_first())
    }
}

/// Finds the first white space.
pub fn find_space(s: &[char]) -> (r: usize)
    ensures
        r == space_index(s@),
        r <= s@.len(),
{
    let mut i: usize = 0;
    proof {
        assert(s@.skip(0) =~= s@);
    }
    while i < s.len() && !space(s[i])
        invariant
            i <= s@.len(),
            space_index(s@) == i + space_index(s@.skip(i as int)),
        decreases s@.len() - i,
    {
        proof {
            assert(s@.skip(i as int).drop_first() =~= s@.skip(i + 1));
        }
        i = i + 1;
    }
    i
}

/// Trimming the start never lengthens the text.
pub proof fn lemma_trim_start_len(s: Seq<char>)
    ensures
        trim_start_spec(s).len() <= s.len(),
        trim_start_spec(s).len() > 0 ==> !is_space(trim_start_spec(s)[0]),
    decreases s.len(),
{
    if s.len() > 0 && is_space(s[0]) {
        lemma_trim_start_len(s.drop_first());
    }
}

/// The maximal runs of characters that are not white space.
pub open spec fn words_spec(s: Seq<char>) -> Seq<Seq<char>>
    decreases s.len(),
    when true
    via words_decreases
{
    let t = trim_start_spec(s);
    if t.len() == 0 {
        seq![]
    } else {
        seq![t.take(space_index(t))] + words_spec(t.skip(space_index(t)))
    }
}

#[via_fn]
proof fn words_decreases(s: Seq<char>) {
    lemma_trim_start_len(s);
    let t = trim_start_spec(s);
    if t.len() > 0 {
        assert(space_index(t) >= 1) by {
            lemma_space_index(t.drop_first());
        }
        lemma_space_index(t);
    }
}

/// The position of the first white space lies within the text.
pub proof fn lemma_space_index(s: Seq<char>)
    ensures
        0 <= space_index(s) <= s.len(),
    decreases s.len(),
{
    if s.len() == 0 || is_space(s[0]) {
    } else {
        lemma_space_index(s.drop_first());
    }
}

/// Splits at white space, dropping empty pieces.
pub fn words<'a>(s: &'a [char]) -> (r: Vec<&'a [char]>)
    ensures
        slice_views(r@) == words_spec(s@),
{
    let mut out: Vec<&'a [char]> = Vec::new();
    let mut rest: &'a [char] = s;
    proof {
        assert(slice_views(out@) + words_spec(rest@) =~= words_spec(s@));
    }
    loop
        invariant
            slice_views(out@) + words_spec(rest@) == words_spec(s@),
        decreases rest@.len(),
    {
        let t: &'a [char] = trim_start(rest);
        proof {
            lemma_trim_start_len(rest@);
        }
        if t.len() == 0 {
            proof {
                assert(slice_views(out@) + words_spec(rest@) =~= slice_views(out@));
            }
            return out;
        }
        let k: usize = find_space(t);
        let ghost before = out@;
        let piece: &'a [char] = vstd::slice::slice_subrange(t, 0, k);
        let next: &'a [char] = vstd::slice::slice_subrange(t, k, t.len());
        out.push(piece);
        proof {
            lemma_space_index(t@.drop_first());
            assert(k >= 1);
            assert(piece@ =~= t@.take(k as int));
            assert(next@ =~= t@.skip(k as int));
            assert(slice_views(out@) =~= slice_views(before).push(piece@));
            assert(slice_views(out@) + words_spec(next@) =~= slice_views(before) + (seq![piece@]
                + words_spec(next@)));
        }
        rest = next;
    }
}

/// A line without the carriage return that ends it.
pub open spec fn strip_cr(s: Seq<char>) -> Seq<char> {
    if s.len() > 0 && s.last() == '\r' {
        s.drop_last()
    } else {
        s
    }
}

/// The lines of a text: each ends at a line feed, which may follow a carriage
/// return, and the last one may go unended.
pub open spec fn lines_spec(s: Seq<char>) -> Seq<Seq<char>>
    decreases s.len(),
{
    let k = char_index(s, '\n');
    if s.len() == 0 {
        seq![]
    } else if 0 <= k < s.len() {
        seq![strip_cr(s.take(k))] + lines_spec(s.skip(k + 1))
    } else {
        seq![s]
    }
}

/// Splits a text into its lines.
pub fn lines<'a>(s: &'a [char]) -> (r: Vec<&'a [char]>)
    ensures
        slice_views(r@) == lines_spec(s@),
{
    let mut out: Vec<&'a [char]> = Vec::new();
    let mut rest: &'a [char] = s;
    proof {
        assert(slice_views(out@) + lines_spec(rest@) =~= lines_spec(s@));
    }
    loop
        invariant
            slice_views(out@) + lines_spec(rest@) == lines_spec(s@),
        decreases rest@.len(),
    {
        let ghost before = out@;
        if rest.len() == 0 {
            proof {
                assert(slice_views(out@) + lines_spec(rest@) =~= slice_views(out@));
            }
            return out;
        }
        let k: usize = find_char(rest, '\n');
        if k == rest.len() {
            out.push(rest);
            proof {
                assert(slice_views(out@) =~= slice_views(before).push(rest@));
                assert(slice_views(before) + seq![rest@] =~= slice_views(before).push(rest@));
            }
            return out;
        }
        let mut end: usize = k;
        if k > 0 && rest[k - 1] == '\r' {
            end = k - 1;
        }
        let piece: &'a [char] = vstd::slice::slice_subrange(rest, 0, end);
        let next: &'a [char] = vstd::slice::slice_subrange(rest, k + 1, rest.len());
        out.push(piece);
        proof {
            assert(piece@ =~= strip_cr(rest@.take(k as int)));
            assert(next@ =~= rest@.skip(k + 1));
            assert(slice_views(out@) =~= slice_views(before).push(piece@));
            assert(slice_views(out@) + lines_spec(next@) =~= slice_views(before) + (seq![piece@]
                + lines_spec(next@)));
        }
        rest = next;
    }
}

/// The lower-case form of an ASCII letter; other characters stay.
pub open spec fn lower_char(c: char) -> char {
    if 'A' <= c <= 'Z' {
        (c as u32 + 32) as char
    } else {
        c
    }
}

/// The upper-case form of an ASCII letter; other characters stay.
pub open spec fn upper_char(c: char) -> char {
    if 'a' <= c <= 'z' {
        (c as u32 - 32) as char
    } else {
        c
    }
}

/// The text with its ASCII letters in lower case.
pub open spec fn lower_spec(s: Seq<char>) -> Seq<char> {
    s.map_values(|c: char| lower_char(c))
}

/// The text with its ASCII letters in upper case.
pub open spec fn upper_spec(s: Seq<char>) -> Seq<char> {
    s.map_values(|c: char| upper_char(c))
}

/// Lowers one ASCII letter.
pub fn to_lower(c: char) -> (r: char)
    ensures
        r == lower_char(c),
{
    if 'A' <= c && c <= 'Z' {
        let v: u32 = c as u32;
        let b: u8 = (v + 32) as u8;
        b as char
    } else {
        c
    }
}

/// Raises one ASCII letter.
pub fn to_upper(c: char) -> (r: char)
    ensures
        r == upper_char(c),
{
    if 'a' <= c && c <= 'z' {
        let v: u32 = c as u32;
        let b: u8 = (v - 32) as u8;
        b as char
    } else {
        c
    }
}

/// Lowers every ASCII letter.
pub fn lower(s: &[char]) -> (r: Vec<char>)
    ensures
        r@ == lower_spec(s@),
{
    let mut out: Vec<char> = Vec::new();
    let mut i: usize = 0;
    while i < s.len()
        invariant
            i <= s@.len(),
            out@ =~= lower_spec(s@.take(i as int)),
        decreases s@.len() - i,
    {
        out.push(to_lower(s[i]));
        i = i + 1;
        proof {
            assert(out@ =~= lower_spec(s@.take(i as int)));
        }
    }
    proof {
        assert(s@.take(s@.len() as int) =~= s@);
    }
    out
}

/// Raises every ASCII letter.
pub fn upper(s: &[char]) -> (r: Vec<char>)
    ensures
        r@ == upper_spec(s@),
{
    let mut out: Vec<char> = Vec::new();
    let mut i: usize = 0;
    while i < s.len()
        invariant
            i <= s@.len(),
            out@ =~= upper_spec(s@.take(i as int)),
        decreases s@.len() - i,
    {
        out.push(to_upper(s[i]));
        i = i + 1;
        proof {
            assert(out@ =~= upper_spec(s@.take(i as int)));
        }
    }
    proof {
        assert(s@.take(s@.len() as int) =~= s@);
    }
    out
}

/// Reports whether two texts agree when the case of ASCII letters is ignored.
pub fn same_ignoring_case(a: &[char], b: &[char]) -> (r: bool)
    ensures
        r == (lower_spec(a@) == lower_spec(b@)),
{
    same(lower(a).as_slice(), lower(b).as_slice())
}

/// The character is an ASCII decimal digit.
pub open spec fn is_digit(c: char) -> bool {
    '0' <= c <= '9'
}

/// The character is an ASCII hexadecimal digit.
pub open spec fn is_hex_digit(c: char) -> bool {
    '0' <= c <= '9' || 'a' <= c <= 'f' || 'A' <= c <= 'F'
}

/// Reports whether `c` is an ASCII decimal digit.
pub fn digit(c: char) -> (r: bool)
    ensures
        r == is_digit(c),
{
    '0' <= c && c <= '9'
}

/// Reports whether `c` is an ASCII hexadecimal digit.
pub fn hex_digit(c: char) -> (r: bool)
    ensures
        r == is_hex_digit(c),
{
    ('0' <= c && c <= '9') || ('a' <= c && c <= 'f') || ('A' <= c && c <= 'F')
}

/// Every character is a hexadecimal digit.
pub open spec fn all_hex(s: Seq<char>) -> bool {
    forall|i: int| 0 <= i < s.len() ==> is_hex_digit(#[trigger] s[i])
}

/// Reports whether every character is a hexadecimal digit.
pub fn only_hex(s: &[char]) -> (r: bool)
    ensures
        r == all_hex(s@),
{
    let mut i: usize = 0;
    while i < s.len()
        invariant
            i <= s@.len(),
            forall|k: int| 0 <= k < i ==> is_hex_digit(#[trigger] s@[k]),
        decreases s@.len() - i,
    {
        if !hex_digit(s[i]) {
            return false;
        }
        i = i + 1;
    }
    true
}

/// The hexadecimal digits of a text, in order and in lower case.
pub open spec fn hex_digits_spec(s: Seq<char>) -> Seq<char>
    decreases s.len(),
{
    if s.len() == 0 {
        seq![]
    } else if is_hex_digit(s.last()) {
        hex_digits_spec(s.drop_last()).push(lower_char(s.last()))
    } else {
        hex_digits_spec(s.drop_last())
    }
}

/// Keeps the hexadecimal digits and lowers them.
pub fn hex_digits(s: &[char]) -> (r: Vec<char>)
    ensures
        r@ == hex_digits_spec(s@),
        r@.len() <= s@.len(),
{
    let mut out: Vec<char> = Vec::new();
    let mut i: usize = 0;
    while i < s.len()
        invariant
            i <= s@.len(),
            out@ == hex_digits_spec(s@.take(i as int)),
            out@.len() <= i,
        decreases s@.len() - i,
    {
        proof {
            assert(s@.take(i + 1).drop_last() =~= s@.take(i as int));
        }
        if hex_digit(s[i]) {
            out.push(to_lower(s[i]));
        }
        i = i + 1;
    }
    proof {
        assert(s@.take(s@.len() as int) =~= s@);
    }
    out
}

/// The parts with `sep` between them.
pub open spec fn join_spec(parts: Seq<Seq<char>>, sep: Seq<char>) -> Seq<char>
    decreases parts.len(),
{
    if parts.len() == 0 {
        seq![]
    } else if parts.len() == 1 {
        parts[0]
    } else {
        join_spec(parts.drop_last(), sep) + sep + parts.last()
    }
}

/// Joins strings with a separator.
pub fn join(parts: &Vec<String>, sep: &str) -> (r: String)
    ensures
        r@ == join_spec(parts.deep_view(), sep@),
{
    let mut out: String = String::new();
    let mut i: usize = 0;
    while i < parts.len()
        invariant
            i <= parts@.len(),
            out@ == join_spec(parts.deep_view().take(i as int), sep@),
        decreases parts@.len() - i,
    {
        let ghost views = parts.deep_view();
        proof {
            assert(views.take(i + 1).drop_last() =~= views.take(i as int));
            assert(views.take(i + 1).last() == parts@[i as int]@);
        }
        if i > 0 {
            out.append(sep);
        }
        out.append(parts[i].as_str());
        proof {
            if i == 0 {
                assert(out@ =~= views.take(1)[0]);
            }
        }
        i = i + 1;
    }
    proof {
        assert(parts.deep_view().take(parts@.len() as int) =~= parts.deep_view());
    }
    out
}

/// Joins two strings.
pub fn concat(a: &str, b: &str) -> (r: String)
    ensures
        r@ == a@ + b@,
{
    let mut out: String = owned(a);
    out.append(b);
    out
}

/// Joins three strings.
pub fn concat3(a: &str, b: &str, c: &str) -> (r: String)
    ensures
        r@ == a@ + b@ + c@,
{
    let mut out: String = owned(a);
    out.append(b);
    out.append(c);
    out
}

/// Joins four strings.
pub fn concat4(a: &str, b: &str, c: &str, d: &str) -> (r: String)
    ensures
        r@ == a@ + b@ + c@ + d@,
{
    let mut out: String = owned(a);
    out.append(b);
    out.append(c);
    out.append(d);
    out
}

/// The text with every `from` replaced by `to`.
pub open spec fn replace_char_spec(s: Seq<char>, from: char, to: char) -> Seq<char> {
    s.map_values(
        |c: char|
            if c == from {
                to
            } else {
                c
            },
    )
}

/// Replaces every `from` by `to`.
pub fn replace_char(s: &[char], from: char, to: char) -> (r: String)
    ensures
        r@ == replace_char_spec(s@, from, to),
{
    let mut out: String = String::new();
    let mut i: usize = 0;
    while i < s.len()
        invariant
            i <= s@.len(),
            out@ =~= replace_char_spec(s@.take(i as int), from, to),
        decreases s@.len() - i,
    {
        out.push(if s[i] == from { to } else { s[i] });
        i = i + 1;
        proof {
            assert(out@ =~= replace_char_spec(s@.take(i as int), from, to));
        }
    }
    proof {
        assert(s@.take(s@.len() as int) =~= s@);
    }
    out
}

/// The first `n` characters, or all of them when there are fewer.
pub open spec fn first_spec(s: Seq<char>, n: int) -> Seq<char> {
    if s.len() <= n {
        s
    } else {
        s.take(n)
    }
}

/// Keeps at most the first `n` characters.
pub fn first(s: &[char], n: usize) -> (r: &[char])
    ensures
        r@ == first_spec(s@, n as int),
{
    if s.len() <= n {
        s
    } else {
        vstd::slice::slice_subrange(s, 0, n)
    }
}

/// The decimal digit for a value below ten.
pub open spec fn digit_char(d: nat) -> char {
    (48 + d) as char
}

/// The decimal form of a number.
pub open spec fn decimal_spec(n: nat) -> Seq<char>
    decreases n,
{
    if n < 10 {
        seq![digit_char(n)]
    } else {
        decimal_spec(n / 10).push(digit_char(n % 10))
    }
}

/// The decimal form of a signed number.
pub open spec fn signed_decimal_spec(n: int) -> Seq<char> {
    if n < 0 {
        seq!['-'] + decimal_spec((-n) as nat)
    } else {
        decimal_spec(n as nat)
    }
}

/// Writes a number in decimal.
pub fn decimal(n: u64) -> (r: String)
    ensures
        r@ == decimal_spec(n as nat),
    decreases n,
{
    let d: u8 = (n % 10) as u8 + 48;
    let c: char = d as char;
    let mut out: String = if n < 10 {
        String::new()
    } else {
        decimal(n / 10)
    };
    out.push(c);
    proof {
        if n < 10 {
            assert(out@ =~= seq![digit_char(n as nat)]);
        }
    }
    out
}

/// Writes a signed number in decimal.
pub fn signed_decimal(n: i64) -> (r: String)
    ensures
        r@ == signed_decimal_spec(n as int),
{
    if n < 0 {
        let mut out: String = String::new();
        out.push('-');
        let m: u64 = (-(n as i128)) as u64;
        out.append(decimal(m).as_str());
        proof {
            assert(Seq::<char>::empty().push('-') =~= seq!['-']);
        }
        out
    } else {
        decimal(n as u64)
    }
}

/// The value of a run of decimal digits; nothing when there are none or when
/// another character occurs.
pub open spec fn digits_value(s: Seq<char>) -> Option<nat>
    decreases s.len(),
{
    if s.len() == 0 {
        None
    } else if !is_digit(s.last()) {
        None
    } else if s.len() == 1 {
        Some((s[0] as u32 - 48) as nat)
    } else {
        match digits_value(s.drop_last()) {
            Some(v) => Some(v * 10 + (s.last() as u32 - 48) as nat),
            None => None,
        }
    }
}

/// Dropping digits from the end of a number cannot raise its value.
proof fn lemma_digits_prefix(s: Seq<char>, i: int)
    requires
        0 < i <= s.len(),
        digits_value(s) is Some,
    ensures
        digits_value(s.take(i)) is Some,
        digits_value(s.take(i))->0 <= digits_value(s)->0,
    decreases s.len(),
{
    if i == s.len() {
        assert(s.take(i) =~= s);
    } else {
        lemma_digits_prefix(s.drop_last(), i);
        assert(s.drop_last().take(i) =~= s.take(i));
    }
}

/// Reads a run of decimal digits whose value is at most `max`.
pub fn parse_digits(s: &[char], max: u64) -> (r: Option<u64>)
    ensures
        match r {
            Some(v) => digits_value(s@) == Some(v as nat) && v <= max,
            None => digits_value(s@) is None || digits_value(s@)->0 > max,
        },
{
    if s.len() == 0 {
        return None;
    }
    let mut value: u64 = 0;
    let mut i: usize = 0;
    while i < s.len()
        invariant
            s@.len() > 0,
            i <= s@.len(),
            i > 0 ==> digits_value(s@.take(i as int)) == Some(value as nat),
            i == 0 ==> value == 0,
            value <= max,
        decreases s@.len() - i,
    {
        let ghost next = s@.take(i + 1);
        proof {
            assert(next.drop_last() =~= s@.take(i as int));
            if digits_value(s@) is Some {
                lemma_digits_prefix(s@, i + 1);
            }
        }
        if !digit(s[i]) {
            return None;
        }
        let d: u64 = (s[i] as u32 - 48) as u64;
        let wide: u128 = value as u128 * 10 + d as u128;
        if wide > max as u128 {
            return None;
        }
        value = wide as u64;
        i = i + 1;
    }
    proof {
        assert(s@.take(s@.len() as int) =~= s@);
    }
    Some(value)
}

/// A number with an optional leading plus sign.
pub open spec fn unsigned_value(s: Seq<char>) -> Option<nat> {
    if s.len() > 0 && s[0] == '+' {
        digits_value(s.drop_first())
    } else {
        digits_value(s)
    }
}

/// Reads a number with an optional leading plus sign, up to `max`.
pub fn parse_unsigned(s: &[char], max: u64) -> (r: Option<u64>)
    ensures
        match r {
            Some(v) => unsigned_value(s@) == Some(v as nat) && v <= max,
            None => unsigned_value(s@) is None || unsigned_value(s@)->0 > max,
        },
{
    if s.len() > 0 && s[0] == '+' {
        let rest = vstd::slice::slice_subrange(s, 1, s.len());
        proof {
            assert(rest@ =~= s@.drop_first());
        }
        parse_digits(rest, max)
    } else {
        parse_digits(s, max)
    }
}

/// A number with an optional leading sign.
pub open spec fn signed_value(s: Seq<char>) -> Option<int> {
    if s.len() > 0 && s[0] == '-' {
        match digits_value(s.drop_first()) {
            Some(v) => Some(-v),
            None => None,
        }
    } else {
        match unsigned_value(s) {
            Some(v) => Some(v as int),
            None => None,
        }
    }
}

/// Reads a 64-bit signed number.
pub fn parse_signed(s: &[char]) -> (r: Option<i64>)
    ensures
        match r {
            Some(v) => signed_value(s@) == Some(v as int),
            None => signed_value(s@) is None || !(i64::MIN <= signed_value(s@)->0 <= i64::MAX),
        },
{
    if s.len() > 0 && s[0] == '-' {
        let rest = vstd::slice::slice_subrange(s, 1, s.len());
        proof {
            assert(rest@ =~= s@.drop_first());
        }
        match parse_digits(rest, 0x8000_0000_0000_0000) {
            Some(v) => {
                let wide: i128 = -(v as i128);
                Some(wide as i64)
            },
            None => None,
        }
    } else {
        match parse_unsigned(s, 0x7fff_ffff_ffff_ffff) {
            Some(v) => Some(v as i64),
            None => None,
        }
    }
}

/// The lower-case hexadecimal digit for a value below sixteen.
pub open spec fn nibble_char(d: u8) -> char {
    if d < 10 {
        (48 + d) as char
    } else {
        (87 + d) as char
    }
}

/// The two lower-case hexadecimal digits of a byte.
pub open spec fn hex_byte_spec(b: u8) -> Seq<char> {
    seq![nibble_char(b / 16), nibble_char(b % 16)]
}

/// The lower-case hexadecimal form of a byte string.
pub open spec fn hex_spec(b: Seq<u8>) -> Seq<char>
    decreases b.len(),
{
    if b.len() == 0 {
        seq![]
    } else {
        hex_spec(b.drop_last()) + hex_byte_spec(b.last())
    }
}

/// Writes a value below sixteen as a hexadecimal digit.
pub fn nibble(d: u8) -> (r: char)
    requires
        d < 16,
    ensures
        r == nibble_char(d),
{
    let v: u8 = if d < 10 {
        48 + d
    } else {
        87 + d
    };
    v as char
}

/// Appends the two hexadecimal digits of a byte.
pub fn push_hex_byte(out: &mut String, b: u8)
    ensures
        final(out)@ == old(out)@ + hex_byte_spec(b),
{
    out.push(nibble(b / 16));
    out.push(nibble(b % 16));
    proof {
        assert(out@ =~= old(out)@ + hex_byte_spec(b));
    }
}

/// `hex::encode` writes each byte as two lower-case hexadecimal digits.
#[verifier::external_body]
pub(crate) fn hex_encode(b: &[u8]) -> (r: String)
    ensures
        r@ == hex_spec(b@),
{
    hex::encode(b)
}

/// Colon-separated hexadecimal bytes.
pub open spec fn colon_hex_spec(b: Seq<u8>) -> Seq<char> {
    join_spec(b.map_values(|x: u8| hex_byte_spec(x)), seq![':'])
}

/// Writes bytes as colon-separated hexadecimal pairs.
pub fn colon_hex(b: &[u8]) -> (r: String)
    ensures
        r@ == colon_hex_spec(b@),
{
    let mut out: String = String::new();
    let mut i: usize = 0;
    let ghost parts = b@.map_values(|x: u8| hex_byte_spec(x));
    while i < b.len()
        invariant
            i <= b@.len(),
            parts == b@.map_values(|x: u8| hex_byte_spec(x)),
            out@ == join_spec(parts.take(i as int), seq![':']),
        decreases b@.len() - i,
    {
        let ghost before = out@;
        proof {
            assert(parts.take(i + 1).drop_last() =~= parts.take(i as int));
            assert(parts.take(i + 1).last() == hex_byte_spec(b@[i as int]));
        }
        if i > 0 {
            out.push(':');
            proof {
                assert(out@ =~= before + seq![':']);
            }
        }
        push_hex_byte(&mut out, b[i]);
        proof {
            if i == 0 {
                assert(out@ =~= parts.take(1)[0]);
            }
        }
        i = i + 1;
    }
    proof {
        assert(parts.take(b@.len() as int) =~= parts);
    }
    out
}

/// `a` comes before `b` in code point order.
pub open spec fn less_spec(a: Seq<char>, b: Seq<char>) -> bool
    decreases a.len(),
{
    if b.len() == 0 {
        false
    } else if a.len() == 0 {
        true
    } else if a[0] != b[0] {
        a[0] < b[0]
    } else {
        less_spec(a.drop_first(), b.drop_first())
    }
}

/// Code point order is total: of two different texts one comes first, and never both.
pub proof fn lemma_less_total(a: Seq<char>, b: Seq<char>)
    ensures
        a == b ==> !less_spec(a, b),
        a != b ==> (less_spec(a, b) <==> !less_spec(b, a)),
    decreases a.len(),
{
    if a.len() == 0 || b.len() == 0 {
        if a.len() == 0 && b.len() == 0 {
            assert(a =~= b);
        }
    } else if a[0] == b[0] {
        lemma_less_total(a.drop_first(), b.drop_first());
        if a.drop_first() == b.drop_first() {
            assert(a =~= seq![a[0]] + a.drop_first());
            assert(b =~= seq![b[0]] + b.drop_first());
        }
    }
}

/// Code point order is transitive.
pub proof fn lemma_less_transitive(a: Seq<char>, b: Seq<char>, c: Seq<char>)
    requires
        less_spec(a, b),
        less_spec(b, c),
    ensures
        less_spec(a, c),
    decreases a.len(),
{
    if a.len() > 0 && a[0] == b[0] && b[0] == c[0] {
        lemma_less_transitive(a.drop_first(), b.drop_first(), c.drop_first());
    }
}

/// Reports whether `a` comes before `b`.
pub fn less(a: &[char], b: &[char]) -> (r: bool)
    ensures
        r == less_spec(a@, b@),
{
    let mut i: usize = 0;
    proof {
        assert(a@.skip(0) =~= a@);
        assert(b@.skip(0) =~= b@);
    }
    while i < a.len() && i < b.len() && a[i] == b[i]
        invariant
            i <= a@.len(),
            i <= b@.len(),
            less_spec(a@, b@) == less_spec(a@.skip(i as int), b@.skip(i as int)),
        decreases a@.len() - i,
    {
        proof {
            assert(a@.skip(i as int).drop_first() =~= a@.skip(i + 1));
            assert(b@.skip(i as int).drop_first() =~= b@.skip(i + 1));
        }
        i = i + 1;
    }
    if i == b.len() {
        false
    } else if i == a.len() {
        true
    } else {
        a[i] < b[i]
    }
}

/// Puts `x` into an increasing list unless it is there already.
pub open spec fn insert_sorted_spec(s: Seq<Seq<char>>, x: Seq<char>) -> Seq<Seq<char>>
    decreases s.len(),
{
    if s.len() == 0 {
        seq![x]
    } else if s.last() == x {
        s
    } else if less_spec(x, s.last()) {
        insert_sorted_spec(s.drop_last(), x).push(s.last())
    } else {
        s.push(x)
    }
}

/// The list is strictly increasing.
pub open spec fn increasing(s: Seq<Seq<char>>) -> bool {
    forall|i: int, j: int| 0 <= i < j < s.len() ==> less_spec(#[trigger] s[i], #[trigger] s[j])
}

/// The different texts of a list, in increasing order.
pub open spec fn sorted_set_spec(s: Seq<Seq<char>>) -> Seq<Seq<char>>
    decreases s.len(),
{
    if s.len() == 0 {
        seq![]
    } else {
        insert_sorted_spec(sorted_set_spec(s.drop_last()), s.last())
    }
}

/// Insertion keeps the list increasing and adds exactly the one text.
pub proof fn lemma_insert_sorted(s: Seq<Seq<char>>, x: Seq<char>)
    requires
        increasing(s),
    ensures
        increasing(insert_sorted_spec(s, x)),
        forall|y: Seq<char>| #[trigger]
            insert_sorted_spec(s, x).contains(y) <==> (s.contains(y) || y == x),
    decreases s.len(),
{
    let r = insert_sorted_spec(s, x);
    if s.len() == 0 {
        assert(r[0] == x);
    } else if s.last() == x {
        assert(s[s.len() - 1] == x);
    } else if less_spec(x, s.last()) {
        let t = s.drop_last();
        assert(increasing(t));
        lemma_insert_sorted(t, x);
        let q = insert_sorted_spec(t, x);
        assert forall|y: Seq<char>| r.contains(y) <==> (s.contains(y) || y == x) by {
            if r.contains(y) {
                let k = choose|k: int| 0 <= k < r.len() && r[k] == y;
                if k < q.len() {
                    assert(q[k] == y);
                    assert(q.contains(y));
                    if t.contains(y) {
                        let m = choose|m: int| 0 <= m < t.len() && t[m] == y;
                        assert(s[m] == y);
                    }
                } else {
                    assert(s[s.len() - 1] == y);
                }
            }
            if s.contains(y) {
                let k = choose|k: int| 0 <= k < s.len() && s[k] == y;
                if k < t.len() {
                    assert(t[k] == y);
                    assert(q.contains(y));
                    let m = choose|m: int| 0 <= m < q.len() && q[m] == y;
                    assert(r[m] == y);
                } else {
                    assert(r[q.len() as int] == y);
                }
            }
            if y == x {
                assert(q.contains(x));
                let m = choose|m: int| 0 <= m < q.len() && q[m] == x;
                assert(r[m] == x);
            }
        }
        assert forall|i: int, j: int| 0 <= i < j < r.len() implies less_spec(
            #[trigger] r[i],
            #[trigger] r[j],
        ) by {
            if j < q.len() {
                assert(less_spec(q[i], q[j]));
            } else {
                assert(q.contains(q[i]));
                if t.contains(q[i]) {
                    let m = choose|m: int| 0 <= m < t.len() && t[m] == q[i];
                    assert(less_spec(s[m], s[s.len() - 1]));
                }
            }
        }
    } else {
        lemma_less_total(x, s.last());
        assert forall|i: int, j: int| 0 <= i < j < r.len() implies less_spec(
            #[trigger] r[i],
            #[trigger] r[j],
        ) by {
            if j < s.len() {
                assert(less_spec(s[i], s[j]));
            } else if i < s.len() - 1 {
                assert(less_spec(s[i], s[s.len() - 1]));
                lemma_less_transitive(s[i], s.last(), x);
            }
        }
        assert forall|y: Seq<char>| r.contains(y) <==> (s.contains(y) || y == x) by {
            if s.contains(y) {
                let k = choose|k: int| 0 <= k < s.len() && s[k] == y;
                assert(r[k] == y);
            }
            if y == x {
                assert(r[s.len() as int] == x);
            }
        }
    }
}

/// A sorted set is increasing and holds exactly the texts of the list.
pub proof fn lemma_sorted_set(s: Seq<Seq<char>>)
    ensures
        increasing(sorted_set_spec(s)),
        forall|y: Seq<char>| #[trigger] sorted_set_spec(s).contains(y) <==> s.contains(y),
    decreases s.len(),
{
    if s.len() > 0 {
        let t = s.drop_last();
        lemma_sorted_set(t);
        lemma_insert_sorted(sorted_set_spec(t), s.last());
        assert forall|y: Seq<char>| sorted_set_spec(s).contains(y) <==> s.contains(y) by {
            if t.contains(y) {
                let k = choose|k: int| 0 <= k < t.len() && t[k] == y;
                assert(s[k] == y);
            }
            if y == s.last() {
                assert(s[s.len() - 1] == y);
            }
            if s.contains(y) {
                let k = choose|k: int| 0 <= k < s.len() && s[k] == y;
                if k < t.len() {
                    assert(t[k] == y);
                }
            }
        }
    }
}

/// Inserts a text into an increasing list unless it is there already.
pub fn insert_sorted(v: &mut Vec<String>, x: String)
    ensures
        final(v).deep_view() == insert_sorted_spec(old(v).deep_view(), x@),
{
    let ghost s = v.deep_view();
    let ghost items = v@;
    let xc = chars(x.as_str());
    let mut i: usize = v.len();
    proof {
        assert(s.take(i as int) =~= s);
        assert(insert_sorted_spec(s.take(i as int), x@) + s.skip(i as int) =~= insert_sorted_spec(
            s,
            x@,
        ));
    }
    while i > 0 && less(xc.as_slice(), chars(v[i - 1].as_str()).as_slice())
        invariant
            i <= v@.len(),
            v@ == items,
            s == v.deep_view(),
            xc@ == x@,
            insert_sorted_spec(s.take(i as int), x@) + s.skip(i as int) == insert_sorted_spec(s, x@),
        decreases i,
    {
        proof {
            lemma_less_total(x@, s[i - 1]);
            let t = s.take(i as int);
            assert(t.last() == v@[i - 1]@);
            assert(t.drop_last() =~= s.take(i - 1));
            assert(insert_sorted_spec(s.take(i - 1), x@) + s.skip(i - 1) =~= insert_sorted_spec(
                t,
                x@,
            ) + s.skip(i as int));
        }
        i = i - 1;
    }
    if i > 0 && v[i - 1] == x {
        proof {
            let t = s.take(i as int);
            assert(t.last() == x@);
            assert(t + s.skip(i as int) =~= s);
        }
        return;
    }
    v.insert(i, x);
    proof {
        let t = s.take(i as int);
        if i > 0 {
            assert(t.last() == items[i - 1]@);
        }
        assert(insert_sorted_spec(t, x@) =~= t.push(x@));
        assert(v.deep_view() =~= t.push(x@) + s.skip(i as int));
    }
}

/// The code points that a sequence of UTF-16 units encodes: a unit outside the
/// surrogate range stands for itself, a high and a low surrogate stand together
/// for one code point, and any other surrogate is an error.
pub open spec fn utf16_spec(u: Seq<u16>) -> Option<Seq<char>>
    decreases u.len(),
{
    if u.len() == 0 {
        Some(seq![])
    } else if u[0] < 0xd800 || u[0] > 0xdfff {
        match utf16_spec(u.drop_first()) {
            Some(rest) => Some(seq![u[0] as char] + rest),
            None => None,
        }
    } else if u.len() >= 2 && u[0] <= 0xdbff && 0xdc00 <= u[1] <= 0xdfff {
        match utf16_spec(u.skip(2)) {
            Some(rest) => Some(
                seq![(0x10000 + (u[0] - 0xd800) * 0x400 + (u[1] - 0xdc00)) as char] + rest,
            ),
            None => None,
        }
    } else {
        None
    }
}

/// `String::from_utf16` decodes UTF-16 units and fails on an unpaired surrogate.
#[verifier::external_body]
pub(crate) fn from_utf16(units: &[u16]) -> (r: Option<String>)
    ensures
        r.deep_view() == utf16_spec(units@),
{
    String::from_utf16(units).ok()
}

/// `str::from_utf8` accepts exactly the well-formed UTF-8 byte strings and gives
/// back the text that they encode.
#[verifier::external_body]
pub(crate) fn from_utf8(b: &[u8]) -> (r: Option<String>)
    ensures
        r.deep_view() == (if vstd::utf8::valid_utf8(b@) {
            Some(vstd::utf8::decode_utf8(b@))
        } else {
            None
        }),
{
    std::str::from_utf8(b).ok().map(str::to_owned)
}

/// The text that `String::from_utf8_lossy` makes of an ill-formed byte string.
pub uninterp spec fn repaired_utf8(b: Seq<u8>) -> Seq<char>;

/// The text of a byte string read as UTF-8: what it encodes where it is well
/// formed, and a repaired text otherwise.
pub open spec fn utf8_lossy_spec(b: Seq<u8>) -> Seq<char> {
    if vstd::utf8::valid_utf8(b) {
        vstd::utf8::decode_utf8(b)
    } else {
        repaired_utf8(b)
    }
}

/// `String::from_utf8_lossy` decodes well-formed UTF-8. Ill-formed bytes come out
/// as replacement characters; how many stand for a run of them is left to the
/// name.
#[verifier::external_body]
pub(crate) fn utf8_lossy(b: &[u8]) -> (r: String)
    ensures
        r@ == (if vstd::utf8::valid_utf8(b@) {
            vstd::utf8::decode_utf8(b@)
        } else {
            repaired_utf8(b@)
        }),
{
    String::from_utf8_lossy(b).into_owned()
}

/// The text that `str::to_lowercase` makes of a text that is not all ASCII.
pub uninterp spec fn tabled_lowercase(s: Seq<char>) -> Seq<char>;

/// The text in lower case: ASCII text by its letters, other text by the Unicode
/// tables.
pub open spec fn unicode_lower_spec(s: Seq<char>) -> Seq<char> {
    if vstd::utf8::is_ascii_chars(s) {
        lower_spec(s)
    } else {
        tabled_lowercase(s)
    }
}

/// `str::to_lowercase` maps a text to lower case; in ASCII text only the letters
/// `A` to `Z` change. What the Unicode tables make of other text is left to the
/// name.
#[verifier::external_body]
pub(crate) fn unicode_lower(s: &str) -> (r: String)
    ensures
        r@ == (if vstd::utf8::is_ascii_chars(s@) {
            lower_spec(s@)
        } else {
            tabled_lowercase(s@)
        }),
{
    s.to_lowercase()
}

/// An optional text, or the empty text.
pub open spec fn or_empty_spec(o: Option<Seq<char>>) -> Seq<char> {
    match o {
        Some(s) => s,
        None => seq![],
    }
}

/// An optional string, or the empty string.
pub fn or_empty(o: &Option<String>) -> (r: String)
    ensures
        r@ == or_empty_spec(o.deep_view()),
{
    match o {
        Some(s) => s.clone(),
        None => String::new(),
    }
}

/// Joining parts that start with `head` puts `head` and the separator in front.
proof fn lemma_join_front(head: Seq<char>, rest: Seq<Seq<char>>, sep: Seq<char>)
    requires
        rest.len() > 0,
    ensures
        join_spec(seq![head] + rest, sep) == head + sep + join_spec(rest, sep),
    decreases rest.len(),
{
    let all = seq![head] + rest;
    assert(all.drop_last() =~= seq![head] + rest.drop_last());
    assert(all.last() == rest.last());
    if rest.len() == 1 {
        reveal_with_fuel(join_spec, 2);
        assert(all.drop_last() =~= seq![head]);
        assert(join_spec(all, sep) =~= head + sep + rest[0]);
    } else {
        lemma_join_front(head, rest.drop_last(), sep);
        assert(join_spec(all, sep) =~= head + sep + join_spec(rest, sep));
    }
}

/// Joining the pieces between the occurrences of a character with that character
/// gives the text back.
pub proof fn law_join_undoes_split(s: Seq<char>, c: char)
    ensures
        join_spec(split_char_spec(s, c), seq![c]) == s,
        split_char_spec(s, c).len() > 0,
    decreases s.len(),
{
    lemma_char_index(s, c);
    let k = char_index(s, c);
    if k < s.len() {
        let rest = s.skip(k + 1);
        law_join_undoes_split(rest, c);
        lemma_join_front(s.take(k), split_char_spec(rest, c), seq![c]);
        assert(s.take(k) + seq![c] + rest =~= s);
    }
}

/// Splitting a text whose first part holds no `c` gives that part, then the rest.
pub proof fn lemma_split_front(head: Seq<char>, rest: Seq<char>, c: char)
    requires
        !head.contains(c),
    ensures
        split_char_spec(head + seq![c] + rest, c) == seq![head] + split_char_spec(rest, c),
{
    let s = head + seq![c] + rest;
    lemma_char_index(s, c);
    let k = char_index(s, c);
    assert(s[head.len() as int] == c);
    if k < head.len() {
        assert(head[k] == c);
    }
    if k > head.len() {
        assert(s[head.len() as int] != c);
    }
    assert(s.take(k) =~= head);
    assert(s.skip(k + 1) =~= rest);
}

/// Splitting parts that were joined with a character that none of them holds gives the
/// parts back.
pub proof fn law_split_undoes_join(parts: Seq<Seq<char>>, c: char)
    requires
        parts.len() > 0,
        forall|i: int| 0 <= i < parts.len() ==> !(#[trigger] parts[i]).contains(c),
    ensures
        split_char_spec(join_spec(parts, seq![c]), c) == parts,
    decreases parts.len(),
{
    let head = parts[0];
    let rest = parts.drop_first();
    if rest.len() == 0 {
        assert(parts =~= seq![head]);
        lemma_split_whole(head, c);
    } else {
        assert forall|i: int| 0 <= i < rest.len() implies !(#[trigger] rest[i]).contains(c) by {
            assert(rest[i] == parts[i + 1]);
        }
        law_split_undoes_join(rest, c);
        assert(parts =~= seq![head] + rest);
        lemma_join_front(head, rest, seq![c]);
        lemma_split_front(head, join_spec(rest, seq![c]), c);
    }
}

/// The first occurrence of a pattern is the one before which there is none.
pub proof fn lemma_first_occurrence(s: Seq<char>, p: Seq<char>, k: int)
    requires
        0 <= k,
        k + p.len() <= s.len(),
        s.subrange(k, k + p.len()) == p,
        forall|j: int| 0 <= j < k ==> #[trigger] s.subrange(j, j + p.len()) != p,
    ensures
        text_index(s, p) == Some(k),
    decreases s.len(),
{
    if k == 0 {
        assert(s.take(p.len() as int) =~= s.subrange(0, p.len() as int));
    } else {
        assert(s.subrange(0, 0int + p.len()) != p);
        assert(s.take(p.len() as int) =~= s.subrange(0, p.len() as int));
        let t = s.drop_first();
        assert(t.subrange(k - 1, k - 1 + p.len()) =~= s.subrange(k, k + p.len()));
        assert forall|j: int| 0 <= j < k - 1 implies #[trigger] t.subrange(j, j + p.len()) != p by {
            assert(t.subrange(j, j + p.len()) =~= s.subrange(j + 1, j + 1 + p.len()));
        }
        lemma_first_occurrence(t, p, k - 1);
    }
}

/// A text that holds no `c` is its only part.
pub proof fn lemma_split_whole(s: Seq<char>, c: char)
    requires
        !s.contains(c),
    ensures
        split_char_spec(s, c) == seq![s],
{
    lemma_char_index(s, c);
    let k = char_index(s, c);
    if k < s.len() {
        assert(s[k] == c);
    }
}

/// Every other character of a text stands in one of its parts.
pub proof fn lemma_split_covers(s: Seq<char>, c: char, x: char)
    requires
        s.contains(x),
        x != c,
    ensures
        exists|i: int|
            0 <= i < split_char_spec(s, c).len() && (#[trigger] split_char_spec(s, c)[i]).contains(
                x,
            ),
    decreases s.len(),
{
    lemma_char_index(s, c);
    let k = char_index(s, c);
    let parts = split_char_spec(s, c);
    let m = choose|m: int| 0 <= m < s.len() && s[m] == x;
    if k < s.len() {
        let rest = s.skip(k + 1);
        if m < k {
            assert(s.take(k)[m] == x);
            assert(parts[0].contains(x));
        } else {
            assert(m > k);
            assert(rest[m - k - 1] == x);
            lemma_split_covers(rest, c, x);
            let i = choose|i: int|
                0 <= i < split_char_spec(rest, c).len() && (#[trigger] split_char_spec(
                    rest,
                    c,
                )[i]).contains(x);
            assert(parts[i + 1] == split_char_spec(rest, c)[i]);
        }
    } else {
        assert(parts[0] == s);
    }
}

/// A text with a decimal value holds digits alone.
pub proof fn lemma_digits_alone(s: Seq<char>, x: char)
    requires
        digits_value(s) is Some,
        s.contains(x),
    ensures
        is_digit(x),
    decreases s.len(),
{
    let m = choose|m: int| 0 <= m < s.len() && s[m] == x;
    if m < s.len() - 1 {
        assert(s.drop_last()[m] == x);
        lemma_digits_alone(s.drop_last(), x);
    }
}

/// The parts of a text hold no separator.
pub proof fn lemma_split_parts(s: Seq<char>, c: char, i: int)
    requires
        0 <= i < split_char_spec(s, c).len(),
    ensures
        !split_char_spec(s, c)[i].contains(c),
        forall|x: char| split_char_spec(s, c)[i].contains(x) ==> s.contains(x),
    decreases s.len(),
{
    lemma_char_index(s, c);
    let k = char_index(s, c);
    let p = split_char_spec(s, c)[i];
    if k < s.len() {
        let rest = s.skip(k + 1);
        if i > 0 {
            assert(p == split_char_spec(rest, c)[i - 1]);
            lemma_split_parts(rest, c, i - 1);
            assert forall|x: char| p.contains(x) implies s.contains(x) by {
                assert(rest.contains(x));
                let m = choose|m: int| 0 <= m < rest.len() && rest[m] == x;
                assert(s[k + 1 + m] == rest[m]);
            }
        } else {
            assert(p == s.take(k));
            assert forall|x: char| p.contains(x) implies s.contains(x) by {
                let m = choose|m: int| 0 <= m < p.len() && p[m] == x;
                assert(s[m] == x);
            }
            if p.contains(c) {
                let m = choose|m: int| 0 <= m < p.len() && p[m] == c;
                assert(s[m] == c);
            }
        }
    } else {
        assert(p == s);
        if s.contains(c) {
            let m = choose|m: int| 0 <= m < s.len() && s[m] == c;
            assert(s[m] != c);
        }
    }
}

/// The decimal form of a number reads back as that number. It is made of digits
/// alone, starts with a zero only where it is that zero, and its length goes with
/// the size of the number.
pub proof fn law_decimal_reads_back(n: nat)
    ensures
        digits_value(decimal_spec(n)) == Some(n),
        forall|i: int| 0 <= i < decimal_spec(n).len() ==> is_digit(#[trigger] decimal_spec(n)[i]),
        decimal_spec(n).len() > 1 ==> decimal_spec(n)[0] != '0',
        decimal_spec(n).len() > 0,
        n < 100 ==> decimal_spec(n).len() <= 2,
        n < 1000 ==> decimal_spec(n).len() <= 3,
    decreases n,
{
    let s = decimal_spec(n);
    if n < 10 {
        assert(s =~= seq![digit_char(n)]);
    } else {
        law_decimal_reads_back(n / 10);
        let front = decimal_spec(n / 10);
        assert(s.drop_last() =~= front);
        assert(s.last() == digit_char(n % 10));
        assert(s[0] == front[0]);
        if front.len() == 1 {
            assert(front =~= seq![front[0]]);
            if n / 10 >= 10 {
                law_decimal_reads_back(n / 10 / 10);
            }
        }
        assert forall|i: int| 0 <= i < s.len() implies is_digit(#[trigger] s[i]) by {
            if i < front.len() {
                assert(s[i] == front[i]);
            }
        }
    }
}

} // verus!
