//! Stable sorting by a named order.

use vstd::prelude::*;

verus! {

/// A strict weak order on the values of a type.
pub trait SortOrder<T: DeepView> {
    /// `a` comes before `b`.
    spec fn before(a: T::V, b: T::V) -> bool;

    /// Reports whether `a` comes before `b`.
    fn comes_before(a: &T, b: &T) -> (r: bool)
        ensures
            r == Self::before(a.deep_view(), b.deep_view()),
    ;

    /// No value comes before another that comes before it.
    proof fn asymmetric(a: T::V, b: T::V)
        ensures
            !(Self::before(a, b) && Self::before(b, a)),
    ;

    /// Not coming before is transitive.
    proof fn transitive(a: T::V, b: T::V, c: T::V)
        requires
            !Self::before(b, a),
            !Self::before(c, b),
        ensures
            !Self::before(c, a),
    ;
}

/// A sorted sequence with `x` put behind everything that does not have to follow it.
pub open spec fn insert_spec<T: DeepView, O: SortOrder<T>>(s: Seq<T::V>, x: T::V) -> Seq<T::V>
    decreases s.len(),
{
    if s.len() == 0 || !O::before(x, s.last()) {
        s.push(x)
    } else {
        insert_spec::<T, O>(s.drop_last(), x).push(s.last())
    }
}

/// The sequence in order; equal values keep their places.
pub open spec fn sorted_spec<T: DeepView, O: SortOrder<T>>(s: Seq<T::V>) -> Seq<T::V>
    decreases s.len(),
{
    if s.len() == 0 {
        s
    } else {
        insert_spec::<T, O>(sorted_spec::<T, O>(s.drop_last()), s.last())
    }
}

/// No value stands behind one that it comes before.
pub open spec fn in_order<T: DeepView, O: SortOrder<T>>(s: Seq<T::V>) -> bool {
    forall|i: int, j: int| 0 <= i < j < s.len() ==> !O::before(#[trigger] s[j], #[trigger] s[i])
}

/// Inserting keeps the order and adds exactly one value.
proof fn lemma_insert<T: DeepView, O: SortOrder<T>>(s: Seq<T::V>, x: T::V)
    requires
        in_order::<T, O>(s),
    ensures
        in_order::<T, O>(insert_spec::<T, O>(s, x)),
        insert_spec::<T, O>(s, x).to_multiset() == s.to_multiset().insert(x),
        insert_spec::<T, O>(s, x).len() == s.len() + 1,
        forall|v: T::V|
            insert_spec::<T, O>(s, x).contains(v) ==> v == x || s.contains(v),
    decreases s.len(),
{
    broadcast use vstd::seq_lib::group_to_multiset_ensures;

    let r = insert_spec::<T, O>(s, x);
    if s.len() == 0 {
        assert(s.push(x).to_multiset() =~= s.to_multiset().insert(x));
    } else if !O::before(x, s.last()) {
        assert(s.push(x).to_multiset() =~= s.to_multiset().insert(x));
        assert forall|i: int, j: int| 0 <= i < j < r.len() implies !O::before(
            #[trigger] r[j],
            #[trigger] r[i],
        ) by {
            if j == s.len() {
                if i < s.len() - 1 {
                    O::transitive(s[i], s.last(), x);
                }
            }
        }
    } else {
        let front = s.drop_last();
        let inner = insert_spec::<T, O>(front, x);
        assert forall|i: int, j: int| 0 <= i < j < front.len() implies !O::before(
            #[trigger] front[j],
            #[trigger] front[i],
        ) by {
            assert(front[i] == s[i] && front[j] == s[j]);
        }
        lemma_insert::<T, O>(front, x);
        assert(s =~= front.push(s.last()));
        assert(inner.len() == s.len());
        assert(r.to_multiset() =~= s.to_multiset().insert(x));
        assert forall|i: int, j: int| 0 <= i < j < r.len() implies !O::before(
            #[trigger] r[j],
            #[trigger] r[i],
        ) by {
            if j == r.len() - 1 {
                assert(inner.contains(inner[i]));
                if inner[i] == x {
                    O::asymmetric(x, s.last());
                } else {
                    assert(front.contains(inner[i]));
                    let k = choose|k: int| 0 <= k < front.len() && front[k] == inner[i];
                    assert(s[k] == front[k]);
                    assert(!O::before(s[s.len() - 1], s[k]));
                }
            } else {
                assert(r[i] == inner[i] && r[j] == inner[j]);
            }
        }
        assert forall|v: T::V| r.contains(v) implies v == x || s.contains(v) by {
            let k = choose|k: int| 0 <= k < r.len() && r[k] == v;
            if k == r.len() - 1 {
                assert(s[s.len() - 1] == v);
            } else {
                assert(inner[k] == v);
                assert(inner.contains(v));
                if v != x {
                    assert(front.contains(v));
                    let m = choose|m: int| 0 <= m < front.len() && front[m] == v;
                    assert(s[m] == front[m]);
                }
            }
        }
    }
}

/// Inserting adds no other value.
pub proof fn lemma_insert_members<T: DeepView, O: SortOrder<T>>(s: Seq<T::V>, x: T::V, v: T::V)
    requires
        insert_spec::<T, O>(s, x).contains(v),
    ensures
        v == x || s.contains(v),
    decreases s.len(),
{
    let r = insert_spec::<T, O>(s, x);
    let k = choose|k: int| 0 <= k < r.len() && r[k] == v;
    if s.len() > 0 {
        let front = s.drop_last();
        if O::before(x, s.last()) {
            let inner = insert_spec::<T, O>(front, x);
            if k < inner.len() {
                assert(inner[k] == v);
                lemma_insert_members::<T, O>(front, x, v);
                if v != x {
                    let m = choose|m: int| 0 <= m < front.len() && front[m] == v;
                    assert(s[m] == v);
                }
            } else {
                assert(s[s.len() - 1] == v);
            }
        } else if k < s.len() {
            assert(s[k] == v);
        }
    }
}

/// Inserting keeps every value and adds the new one.
pub proof fn lemma_insert_keeps<T: DeepView, O: SortOrder<T>>(s: Seq<T::V>, x: T::V, v: T::V)
    requires
        v == x || s.contains(v),
    ensures
        insert_spec::<T, O>(s, x).contains(v),
    decreases s.len(),
{
    let r = insert_spec::<T, O>(s, x);
    if s.len() == 0 || !O::before(x, s.last()) {
        assert(r[s.len() as int] == x);
        if v != x {
            let k = choose|k: int| 0 <= k < s.len() && s[k] == v;
            assert(r[k] == v);
        }
    } else {
        let front = s.drop_last();
        let inner = insert_spec::<T, O>(front, x);
        if v == s.last() {
            assert(r[inner.len() as int] == v);
        } else {
            if v != x {
                let k = choose|k: int| 0 <= k < s.len() && s[k] == v;
                assert(front[k] == v);
            }
            lemma_insert_keeps::<T, O>(front, x, v);
            let k = choose|k: int| 0 <= k < inner.len() && inner[k] == v;
            assert(r[k] == v);
        }
    }
}

/// Sorting puts a sequence in order and neither drops nor invents a value.
pub proof fn law_sorted<T: DeepView, O: SortOrder<T>>(s: Seq<T::V>)
    ensures
        in_order::<T, O>(sorted_spec::<T, O>(s)),
        sorted_spec::<T, O>(s).to_multiset() == s.to_multiset(),
        sorted_spec::<T, O>(s).len() == s.len(),
    decreases s.len(),
{
    broadcast use vstd::seq_lib::group_to_multiset_ensures;

    if s.len() > 0 {
        law_sorted::<T, O>(s.drop_last());
        lemma_insert::<T, O>(sorted_spec::<T, O>(s.drop_last()), s.last());
        assert(s =~= s.drop_last().push(s.last()));
        assert(s.to_multiset() =~= s.drop_last().to_multiset().insert(s.last()));
    }
}

/// The place at which a value is inserted.
proof fn lemma_place<T: DeepView, O: SortOrder<T>>(s: Seq<T::V>, x: T::V, k: int)
    requires
        0 <= k <= s.len(),
        k == 0 || !O::before(x, s[k - 1]),
        forall|i: int| k <= i < s.len() ==> O::before(x, #[trigger] s[i]),
    ensures
        insert_spec::<T, O>(s, x) == s.insert(k, x),
    decreases s.len(),
{
    if s.len() == k {
        assert(s.insert(k, x) =~= s.push(x));
    } else {
        lemma_place::<T, O>(s.drop_last(), x, k);
        assert(s.drop_last().insert(k, x).push(s.last()) =~= s.insert(k, x));
    }
}

/// Inserts a value behind everything that does not have to follow it.
pub fn insert<T: DeepView, O: SortOrder<T>>(v: &mut Vec<T>, x: T)
    ensures
        final(v).deep_view() == insert_spec::<T, O>(old(v).deep_view(), x.deep_view()),
        final(v)@.len() == old(v)@.len() + 1,
{
    let ghost views = v.deep_view();
    let mut k: usize = v.len();
    while k > 0 && O::comes_before(&x, &v[k - 1])
        invariant
            k <= v@.len(),
            v@ == old(v)@,
            views == v.deep_view(),
            forall|i: int| k <= i < views.len() ==> O::before(x.deep_view(), #[trigger] views[i]),
        decreases k,
    {
        k = k - 1;
    }
    proof {
        lemma_place::<T, O>(views, x.deep_view(), k as int);
    }
    let ghost added = x.deep_view();
    v.insert(k, x);
    proof {
        assert(v.deep_view() =~= views.insert(k as int, added));
    }
}

/// Puts a list in order; equal values keep their places.
pub fn sorted<T: DeepView, O: SortOrder<T>>(list: Vec<T>) -> (r: Vec<T>)
    ensures
        r.deep_view() == sorted_spec::<T, O>(list.deep_view()),
{
    let ghost views = list.deep_view();
    let ghost total = list@.len();
    let mut rest = list;
    let mut back: Vec<T> = Vec::new();
    proof {
        assert(views.skip(total as int) =~= seq![]);
    }
    while rest.len() > 0
        invariant
            rest@.len() + back@.len() == total,
            views.len() == total,
            rest.deep_view() == views.take(rest@.len() as int),
            forall|i: int|
                0 <= i < back@.len() ==> (#[trigger] back@[i]).deep_view() == views[total - 1 - i],
        decreases rest@.len(),
    {
        let ghost before = rest.deep_view();
        let x = rest.pop().unwrap();
        proof {
            assert(rest.deep_view() =~= before.drop_last());
            assert(before.drop_last() =~= views.take(rest@.len() as int));
            assert(x.deep_view() == before.last());
        }
        back.push(x);
    }
    let mut out: Vec<T> = Vec::new();
    proof {
        assert(out.deep_view() =~= views.take(0));
        assert(sorted_spec::<T, O>(views.take(0)) =~= views.take(0));
    }
    while back.len() > 0
        invariant
            back@.len() <= total,
            views.len() == total,
            forall|i: int|
                0 <= i < back@.len() ==> (#[trigger] back@[i]).deep_view() == views[total - 1 - i],
            out.deep_view() == sorted_spec::<T, O>(views.take(total - back@.len())),
        decreases back@.len(),
    {
        let ghost n = total - back@.len();
        let x = back.pop().unwrap();
        proof {
            assert(views.take(n + 1).drop_last() =~= views.take(n));
            assert(views.take(n + 1).last() == x.deep_view());
        }
        insert::<T, O>(&mut out, x);
    }
    proof {
        assert(views.take(total as int) =~= views);
    }
    out
}

} // verus!
