//! What trimming, splitting, and searching text do.

use crate::text;
use vstd::prelude::*;

verus! {

/// White space alone.
pub open spec fn blank(s: Seq<char>) -> bool {
    forall|i: int| 0 <= i < s.len() ==> text::is_space(#[trigger] s[i])
}

/// The text neither starts nor ends with white space.
pub open spec fn edged(s: Seq<char>) -> bool {
    s.len() > 0 ==> !text::is_space(s[0]) && !text::is_space(s.last())
}

/// Among the characters of ASCII, white space is the blank and the characters from the
/// horizontal tab to the carriage return.
pub proof fn law_ascii_white_space(c: char)
    requires
        c as u32 <= 0x7f,
    ensures
        text::is_space(c) <==> c == ' ' || c == '\t' || c == '\n' || c == '\r' || c as u32 == 0x0b
            || c as u32 == 0x0c,
{
}

/// What trimming the start takes away.
pub proof fn lemma_trim_start(front: Seq<char>, s: Seq<char>)
    requires
        blank(front),
    ensures
        text::trim_start_spec(front + s) == text::trim_start_spec(s),
    decreases front.len(),
{
    if front.len() == 0 {
        assert(front + s =~= s);
    } else {
        let rest = front.drop_first();
        assert forall|i: int| 0 <= i < rest.len() implies text::is_space(#[trigger] rest[i]) by {
            assert(rest[i] == front[i + 1]);
        }
        lemma_trim_start(rest, s);
        assert((front + s).drop_first() =~= rest + s);
        assert((front + s)[0] == front[0]);
    }
}

/// What trimming the end takes away.
pub proof fn lemma_trim_end(s: Seq<char>, back: Seq<char>)
    requires
        blank(back),
    ensures
        text::trim_end_spec(s + back) == text::trim_end_spec(s),
    decreases back.len(),
{
    if back.len() == 0 {
        assert(s + back =~= s);
    } else {
        let rest = back.drop_last();
        assert forall|i: int| 0 <= i < rest.len() implies text::is_space(#[trigger] rest[i]) by {
            assert(rest[i] == back[i]);
        }
        lemma_trim_end(s, rest);
        assert((s + back).drop_last() =~= s + rest);
        assert((s + back).last() == back[back.len() - 1]);
    }
}

/// Trimming takes the white space around a text away, and nothing else.
pub proof fn law_trimming_takes_the_white_space_around(
    front: Seq<char>,
    s: Seq<char>,
    back: Seq<char>,
)
    requires
        blank(front),
        blank(back),
        edged(s),
    ensures
        text::trim_spec(front + s + back) == s,
{
    assert(front + s + back =~= front + (s + back));
    lemma_trim_start(front, s + back);
    if s.len() > 0 {
        assert((s + back)[0] == s[0]);
        lemma_trim_end(s, back);
    } else {
        assert(s + back =~= back);
        assert(back + Seq::<char>::empty() =~= back);
        lemma_trim_start(back, seq![]);
        assert(text::trim_start_spec(back) =~= seq![]);
        assert(s =~= seq![]);
    }
}

/// Trimming a character takes the runs of it at both ends away, and nothing else.
pub proof fn law_trimming_a_character(c: char, n: nat, s: Seq<char>, m: nat)
    requires
        s.len() > 0,
        s[0] != c,
        s.last() != c,
    ensures
        text::trim_char_spec(Seq::new(n, |i: int| c) + s + Seq::new(m, |i: int| c), c) == s,
        text::trim_end_char_spec(s + Seq::new(m, |i: int| c), c) == s,
{
    let front = Seq::new(n, |i: int| c);
    let back = Seq::new(m, |i: int| c);
    lemma_trim_start_char(c, n, s + back);
    assert(front + s + back =~= front + (s + back));
    assert((s + back)[0] == s[0]);
    lemma_trim_end_char(c, s, m);
}

/// A run at the start.
proof fn lemma_trim_start_char(c: char, n: nat, s: Seq<char>)
    ensures
        text::trim_start_char_spec(Seq::new(n, |i: int| c) + s, c) == text::trim_start_char_spec(
            s,
            c,
        ),
    decreases n,
{
    let front = Seq::new(n, |i: int| c);
    if n == 0 {
        assert(front + s =~= s);
    } else {
        lemma_trim_start_char(c, (n - 1) as nat, s);
        assert((front + s).drop_first() =~= Seq::new((n - 1) as nat, |i: int| c) + s);
        assert((front + s)[0] == c);
    }
}

/// A run at the end.
proof fn lemma_trim_end_char(c: char, s: Seq<char>, m: nat)
    ensures
        text::trim_end_char_spec(s + Seq::new(m, |i: int| c), c) == text::trim_end_char_spec(s, c),
    decreases m,
{
    let back = Seq::new(m, |i: int| c);
    if m == 0 {
        assert(s + back =~= s);
    } else {
        lemma_trim_end_char(c, s, (m - 1) as nat);
        assert((s + back).drop_last() =~= s + Seq::new((m - 1) as nat, |i: int| c));
        assert((s + back).last() == c);
    }
}

/// The first position of a character behind a text without it.
pub proof fn lemma_char_behind(head: Seq<char>, c: char, rest: Seq<char>)
    requires
        !head.contains(c),
    ensures
        text::char_index(head + seq![c] + rest, c) == head.len(),
        (head + seq![c] + rest).take(head.len() as int) == head,
        (head + seq![c] + rest).skip((head.len() + 1) as int) == rest,
{
    let s = head + seq![c] + rest;
    let k = text::char_index(s, c);
    text::lemma_char_index(s, c);
    assert(s[head.len() as int] == c);
    if k < head.len() {
        assert(head[k] == s[k]);
        assert(head.contains(c));
    }
    assert(s.take(head.len() as int) =~= head);
    assert(s.skip((head.len() + 1) as int) =~= rest);
}

/// A text without a character has none of it.
pub proof fn lemma_char_nowhere(s: Seq<char>, c: char)
    requires
        !s.contains(c),
    ensures
        text::char_index(s, c) == s.len(),
{
    text::lemma_char_index(s, c);
    let k = text::char_index(s, c);
    if k < s.len() {
        assert(s[k] == c);
    }
}

/// Lines end at line feeds, with or without a carriage return in front; a last line may
/// go unended, and an empty text has none.
pub proof fn law_lines_end_at_line_feeds(line: Seq<char>, rest: Seq<char>)
    requires
        !line.contains('\n'),
        line.len() > 0 ==> line.last() != '\r',
    ensures
        text::lines_spec(line + seq!['\n'] + rest) == seq![line] + text::lines_spec(rest),
        text::lines_spec(line + seq!['\r', '\n'] + rest) == seq![line] + text::lines_spec(rest),
        line.len() > 0 ==> text::lines_spec(line) == seq![line],
        text::lines_spec(seq![]) == Seq::<Seq<char>>::empty(),
{
    let none = Seq::<Seq<char>>::empty();
    lemma_char_behind(line, '\n', rest);
    let long = line.push('\r');
    if long.contains('\n') {
        let k = choose|k: int| 0 <= k < long.len() && long[k] == '\n';
        assert(k < line.len());
        assert(line[k] == '\n');
    }
    lemma_char_behind(long, '\n', rest);
    assert(line + seq!['\r', '\n'] + rest =~= long + seq!['\n'] + rest);
    assert(long.drop_last() =~= line);
    lemma_char_nowhere(line, '\n');
}

/// Words stand between white space: a text without any is one word, white space alone
/// has none, and the words of two texts with white space between them are those of the
/// one and those of the other.
pub proof fn law_words_stand_between_white_space(
    front: Seq<char>,
    word: Seq<char>,
    c: char,
    rest: Seq<char>,
)
    requires
        blank(front),
        word.len() > 0,
        forall|i: int| 0 <= i < word.len() ==> !text::is_space(#[trigger] word[i]),
        text::is_space(c),
    ensures
        text::words_spec(front + word + seq![c] + rest) == seq![word] + text::words_spec(rest),
        text::words_spec(front + word) == seq![word],
        text::words_spec(front) == Seq::<Seq<char>>::empty(),
{
    let none = Seq::<char>::empty();
    let s = front + word + seq![c] + rest;
    let t = word + seq![c] + rest;
    assert(s =~= front + t);
    lemma_trim_start(front, t);
    assert(t[0] == word[0]);
    assert(text::trim_start_spec(t) == t);
    lemma_space_index(word, seq![c] + rest);
    assert(t =~= word + (seq![c] + rest));
    let k = word.len() as int;
    assert(text::space_index(t) == k + text::space_index(seq![c] + rest));
    assert((seq![c] + rest)[0] == c);
    assert(t.take(k) =~= word);
    assert(t.skip(k) =~= seq![c] + rest);
    assert(blank(seq![c]));
    lemma_trim_start(seq![c], rest);
    assert(text::words_spec(seq![c] + rest) == text::words_spec(rest)) by {
        lemma_words_of_trimmed(seq![c] + rest, rest);
    }
    lemma_trim_start(front, word);
    assert(text::trim_start_spec(word) == word);
    lemma_space_index(word, none);
    assert(word + none =~= word);
    assert(word.take(k) =~= word);
    assert(word.skip(k) =~= none);
    assert(text::words_spec(none) =~= seq![]);
    assert(seq![word] + Seq::<Seq<char>>::empty() =~= seq![word]);
    lemma_trim_start(front, none);
    assert(front + none =~= front);
    assert(text::trim_start_spec(none) == none);
}

/// Words depend on the text behind its leading white space.
proof fn lemma_words_of_trimmed(a: Seq<char>, b: Seq<char>)
    requires
        text::trim_start_spec(a) == text::trim_start_spec(b),
    ensures
        text::words_spec(a) == text::words_spec(b),
{
}

/// The first white space behind a word.
proof fn lemma_space_index(word: Seq<char>, rest: Seq<char>)
    requires
        forall|i: int| 0 <= i < word.len() ==> !text::is_space(#[trigger] word[i]),
    ensures
        text::space_index(word + rest) == word.len() + text::space_index(rest),
    decreases word.len(),
{
    if word.len() == 0 {
        assert(word + rest =~= rest);
    } else {
        let w = word.drop_first();
        assert forall|i: int| 0 <= i < w.len() implies !text::is_space(#[trigger] w[i]) by {
            assert(w[i] == word[i + 1]);
        }
        lemma_space_index(w, rest);
        assert((word + rest).drop_first() =~= w + rest);
        assert((word + rest)[0] == word[0]);
    }
}

/// A text contains another where it is that text with something before and behind it; it
/// starts with it where nothing stands before, and ends with it where nothing stands
/// behind.
pub proof fn law_texts_contain_their_parts(a: Seq<char>, p: Seq<char>, b: Seq<char>)
    ensures
        text::contains_spec(a + p + b, p),
        text::starts_with_spec(p + b, p),
        text::ends_with_spec(a + p, p),
        text::strip_prefix_spec(p + b, p) == Some(b),
{
    let s = a + p + b;
    let k = a.len() as int;
    assert(s.subrange(k, k + p.len()) =~= p);
    assert((p + b).take(p.len() as int) =~= p);
    assert((a + p).skip((a + p).len() - p.len()) =~= p);
    assert((p + b).skip(p.len() as int) =~= b);
}

/// What a text contains stands between two other parts of it.
pub proof fn law_parts_make_up_texts(s: Seq<char>, p: Seq<char>)
    ensures
        text::contains_spec(s, p) ==> exists|a: Seq<char>, b: Seq<char>|
            s == #[trigger] ((a + p) + b),
        text::starts_with_spec(s, p) ==> exists|b: Seq<char>| s == #[trigger] (p + b),
        text::ends_with_spec(s, p) ==> exists|a: Seq<char>| s == #[trigger] (a + p),
        text::strip_prefix_spec(s, p) is Some <==> text::starts_with_spec(s, p),
{
    if text::contains_spec(s, p) {
        let k = choose|k: int|
            0 <= k && k + p.len() <= s.len() && #[trigger] s.subrange(k, k + p.len()) == p;
        assert(s =~= (s.take(k) + s.subrange(k, k + p.len())) + s.skip(k + p.len()));
        assert(s == (s.take(k) + p) + s.skip(k + p.len()));
    }
    if text::starts_with_spec(s, p) {
        assert(s =~= s.take(p.len() as int) + s.skip(p.len() as int));
        assert(s == p + s.skip(p.len() as int));
    }
    if text::ends_with_spec(s, p) {
        let k = s.len() - p.len();
        assert(s =~= s.take(k) + s.skip(k));
        assert(s == s.take(k) + p);
    }
}

/// Lower case changes the letters from A to Z, by thirty-two, and keeps everything else.
/// Upper case changes the letters from a to z back.
pub proof fn law_case_changes_letters_only(s: Seq<char>, i: int)
    requires
        0 <= i < s.len(),
    ensures
        ({
            let c = s[i] as int;
            let low = text::lower_spec(s);
            let high = text::upper_spec(s);
            &&& low.len() == s.len() && high.len() == s.len()
            &&& 65 <= c <= 90 ==> low[i] as int == c + 32
            &&& c < 65 || c > 90 ==> low[i] == s[i]
            &&& 97 <= c <= 122 ==> high[i] as int == c - 32
            &&& c < 97 || c > 122 ==> high[i] == s[i]
        }),
{
}

/// The value of a hexadecimal digit.
pub open spec fn hex_value(c: char) -> int {
    if '0' <= c <= '9' {
        c as int - 48
    } else if 'a' <= c <= 'f' {
        c as int - 87
    } else {
        -1
    }
}

/// A byte string is written as two lower-case hexadecimal digits for each byte, the high
/// one first.
pub proof fn law_hex_digits_spell_the_bytes(b: Seq<u8>, i: int)
    requires
        0 <= i < b.len(),
    ensures
        ({
            let s = text::hex_spec(b);
            &&& s.len() == 2 * b.len()
            &&& 0 <= hex_value(s[2 * i]) < 16
            &&& 0 <= hex_value(s[2 * i + 1]) < 16
            &&& hex_value(s[2 * i]) * 16 + hex_value(s[2 * i + 1]) == b[i]
        }),
    decreases b.len(),
{
    lemma_hex_len(b);
    lemma_hex_len(b.drop_last());
    if i < b.len() - 1 {
        law_hex_digits_spell_the_bytes(b.drop_last(), i);
        assert(text::hex_spec(b)[2 * i] == text::hex_spec(b.drop_last())[2 * i]);
        assert(text::hex_spec(b)[2 * i + 1] == text::hex_spec(b.drop_last())[2 * i + 1]);
    } else {
        let x = b.last();
        assert(text::hex_spec(b)[2 * i] == text::nibble_char(x / 16));
        assert(text::hex_spec(b)[2 * i + 1] == text::nibble_char(x % 16));
    }
}

/// The length of a hexadecimal form.
proof fn lemma_hex_len(b: Seq<u8>)
    ensures
        text::hex_spec(b).len() == 2 * b.len(),
    decreases b.len(),
{
    if b.len() > 0 {
        lemma_hex_len(b.drop_last());
    }
}

/// The octets of a MAC address are written as pairs of lower-case hexadecimal digits with
/// colons between them.
pub proof fn law_octets_stand_between_colons(b: Seq<u8>, i: int)
    requires
        0 <= i < b.len(),
    ensures
        ({
            let s = text::colon_hex_spec(b);
            &&& s.len() == 3 * b.len() - 1
            &&& hex_value(s[3 * i]) * 16 + hex_value(s[3 * i + 1]) == b[i]
            &&& 0 <= hex_value(s[3 * i]) < 16
            &&& 0 <= hex_value(s[3 * i + 1]) < 16
            &&& i + 1 < b.len() ==> s[3 * i + 2] == ':'
        }),
    decreases b.len(),
{
    let parts = b.map_values(|x: u8| text::hex_byte_spec(x));
    let front = b.drop_last();
    assert(parts.drop_last() =~= front.map_values(|x: u8| text::hex_byte_spec(x)));
    lemma_colon_len(b);
    let s = text::colon_hex_spec(b);
    if b.len() == 1 {
        assert(s == text::hex_byte_spec(b[0]));
    } else {
        lemma_colon_len(front);
        let t = text::colon_hex_spec(front);
        assert(s =~= t + seq![':'] + text::hex_byte_spec(b.last()));
        if i < front.len() {
            law_octets_stand_between_colons(front, i);
            assert(s[3 * i] == t[3 * i]);
            assert(s[3 * i + 1] == t[3 * i + 1]);
        } else {
            assert(s[3 * i] == text::hex_byte_spec(b.last())[0]);
            assert(s[3 * i + 1] == text::hex_byte_spec(b.last())[1]);
        }
    }
}

/// The length of a written MAC address.
proof fn lemma_colon_len(b: Seq<u8>)
    requires
        b.len() > 0,
    ensures
        text::colon_hex_spec(b).len() == 3 * b.len() - 1,
    decreases b.len(),
{
    let parts = b.map_values(|x: u8| text::hex_byte_spec(x));
    let front = b.drop_last();
    assert(parts.drop_last() =~= front.map_values(|x: u8| text::hex_byte_spec(x)));
    if b.len() > 1 {
        lemma_colon_len(front);
    }
}

/// The hexadecimal digits of a text are those that it has, in order and in lower case:
/// what is no digit is left out, and a digit stands at its place.
pub proof fn law_hex_digits_are_picked(a: Seq<char>, c: char, b: Seq<char>)
    ensures
        ('0' <= c <= '9' || 'a' <= c <= 'f') ==> text::hex_digits_spec(a + seq![c] + b)
            == text::hex_digits_spec(a) + seq![c] + text::hex_digits_spec(b),
        'A' <= c <= 'F' ==> text::hex_digits_spec(a + seq![c] + b) == text::hex_digits_spec(a)
            + seq![(c as u32 + 32) as char] + text::hex_digits_spec(b),
        !('0' <= c <= '9' || 'a' <= c <= 'f' || 'A' <= c <= 'F') ==> text::hex_digits_spec(
            a + seq![c] + b,
        ) == text::hex_digits_spec(a) + text::hex_digits_spec(b),
        text::hex_digits_spec(seq![]) == Seq::<char>::empty(),
{
    let x = a.push(c);
    assert(x.drop_last() =~= a);
    assert(a + seq![c] + b =~= x + b);
    lemma_hex_digits_add(x, b);
    let h = text::hex_digits_spec(a);
    assert(h.push(c) =~= h + seq![c]);
    assert(h.push(text::lower_char(c)) =~= h + seq![text::lower_char(c)]);
}

/// The digits of two texts.
pub proof fn lemma_hex_digits_add(a: Seq<char>, b: Seq<char>)
    ensures
        text::hex_digits_spec(a + b) == text::hex_digits_spec(a) + text::hex_digits_spec(b),
    decreases b.len(),
{
    if b.len() == 0 {
        assert(a + b =~= a);
        assert(text::hex_digits_spec(a) + text::hex_digits_spec(b) =~= text::hex_digits_spec(a));
    } else {
        lemma_hex_digits_add(a, b.drop_last());
        assert((a + b).drop_last() =~= a + b.drop_last());
        assert((a + b).last() == b.last());
        assert(text::hex_digits_spec(a + b) =~= text::hex_digits_spec(a) + text::hex_digits_spec(
            b,
        ));
    }
}

/// Replacing a character changes its occurrences and nothing else.
pub proof fn law_replacing_changes_occurrences(s: Seq<char>, from: char, to: char, i: int)
    requires
        0 <= i < s.len(),
    ensures
        text::replace_char_spec(s, from, to).len() == s.len(),
        s[i] == from ==> text::replace_char_spec(s, from, to)[i] == to,
        s[i] != from ==> text::replace_char_spec(s, from, to)[i] == s[i],
{
}

/// A number with a sign is its decimal form behind a minus where it is negative.
pub proof fn law_signed_numbers_read_back(n: int)
    ensures
        text::signed_value(text::signed_decimal_spec(n)) == Some(n),
        n >= 0 ==> text::signed_decimal_spec(n) == text::decimal_spec(n as nat),
        n < 0 ==> text::signed_decimal_spec(n)[0] == '-',
{
    if n >= 0 {
        text::law_decimal_reads_back(n as nat);
        let s = text::decimal_spec(n as nat);
        assert(text::is_digit(s[0]));
    } else {
        text::law_decimal_reads_back((-n) as nat);
        let s = text::signed_decimal_spec(n);
        assert(s.drop_first() =~= text::decimal_spec((-n) as nat));
    }
}

/// Texts are ordered like the words of a dictionary: by the first character in which they
/// differ, and a text comes before its continuations.
pub proof fn law_texts_are_ordered_like_words(
    front: Seq<char>,
    a: char,
    x: Seq<char>,
    b: char,
    y: Seq<char>,
)
    ensures
        a < b ==> text::less_spec(front + seq![a] + x, front + seq![b] + y),
        a > b ==> !text::less_spec(front + seq![a] + x, front + seq![b] + y),
        text::less_spec(front, front + seq![a] + x),
        !text::less_spec(front + seq![a] + x, front),
        !text::less_spec(front, front),
    decreases front.len(),
{
    let p = front + seq![a] + x;
    let q = front + seq![b] + y;
    if front.len() == 0 {
        assert(p[0] == a && q[0] == b);
    } else {
        let rest = front.drop_first();
        law_texts_are_ordered_like_words(rest, a, x, b, y);
        assert(p.drop_first() =~= rest + seq![a] + x);
        assert(q.drop_first() =~= rest + seq![b] + y);
        assert(p[0] == front[0] && q[0] == front[0]);
    }
}

} // verus!
