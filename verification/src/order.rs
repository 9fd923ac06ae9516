//! Stable sorting by a stated order.

use vstd::prelude::*;

verus! {

/// An order on the values of a type, stated over a model of them.
pub trait Order<T> {
    /// What the order looks at.
    type Model;

    spec fn model(x: T) -> Self::Model;

    /// Whether `a` comes strictly before `b`.
    spec fn less(a: Self::Model, b: Self::Model) -> bool;

    fn is_before(a: &T, b: &T) -> (r: bool)
        ensures
            r == Self::less(Self::model(*a), Self::model(*b)),
    ;
}

/// The models of a list of values.
pub open spec fn models<T, O: Order<T>>(s: Seq<T>) -> Seq<O::Model> {
    s.map_values(|x: T| O::model(x))
}

/// The first position at or after `i` whose element comes after `x`.
pub open spec fn place<T, O: Order<T>>(s: Seq<O::Model>, x: O::Model, i: int) -> int
    decreases s.len() - i,
{
    if i < 0 || i >= s.len() || O::less(x, s[i]) {
        i
    } else {
        place::<T, O>(s, x, i + 1)
    }
}

/// The list sorted by taking its elements in turn and putting each behind all
/// that do not come after it.
pub open spec fn sorted<T, O: Order<T>>(s: Seq<O::Model>) -> Seq<O::Model>
    decreases s.len(),
{
    if s.len() == 0 {
        s
    } else {
        let before = sorted::<T, O>(s.drop_last());
        before.insert(place::<T, O>(before, s.last(), 0), s.last())
    }
}

proof fn lemma_place<T, O: Order<T>>(s: Seq<O::Model>, x: O::Model, i: int)
    requires
        0 <= i <= s.len(),
    ensures
        i <= place::<T, O>(s, x, i) <= s.len(),
        forall|j: int| i <= j < place::<T, O>(s, x, i) ==> !O::less(x, #[trigger] s[j]),
        place::<T, O>(s, x, i) < s.len() ==> O::less(x, s[place::<T, O>(s, x, i)]),
    decreases s.len() - i,
{
    if i < s.len() && !O::less(x, s[i]) {
        lemma_place::<T, O>(s, x, i + 1);
    }
}

/// Sort a list; equal elements keep their order.
pub fn stable_sort<T, O: Order<T>>(v: Vec<T>) -> (out: Vec<T>)
    ensures
        models::<T, O>(out@) == sorted::<T, O>(models::<T, O>(v@)),
{
    let ghost all = models::<T, O>(v@);
    let ghost start = v@;
    let mut out: Vec<T> = Vec::new();
    assert(models::<T, O>(out@) =~= sorted::<T, O>(all.take(0)));
    for x in it: v.into_iter()
        invariant
            it.seq() == start,
            all == models::<T, O>(start),
            out@.len() == it.index(),
            models::<T, O>(out@) == sorted::<T, O>(all.take(it.index() as int)),
    {
        let ghost n = it.index() as int;
        assert(all.take(n + 1).drop_last() =~= all.take(n));
        let ghost done = models::<T, O>(out@);
        let mut p: usize = 0;
        while p < out.len() && !O::is_before(&x, &out[p])
            invariant
                p <= out@.len(),
                done == models::<T, O>(out@),
                place::<T, O>(done, O::model(x), 0) == place::<T, O>(done, O::model(x), p as int),
            decreases out@.len() - p,
        {
            p += 1;
        }
        out.insert(p, x);
        assert(models::<T, O>(out@) =~= done.insert(p as int, O::model(x)));
        assert(all.take(n + 1).last() == O::model(x));
    }
    assert(all.take(all.len() as int) =~= all);
    out
}

/// Sorting keeps every element, as often as it was there.
pub proof fn sorting_permutes<T, O: Order<T>>(s: Seq<O::Model>)
    ensures
        sorted::<T, O>(s).to_multiset() == s.to_multiset(),
        sorted::<T, O>(s).len() == s.len(),
    decreases s.len(),
{
    broadcast use vstd::seq_lib::group_to_multiset_ensures;

    if s.len() > 0 {
        let front = s.drop_last();
        sorting_permutes::<T, O>(front);
        let before = sorted::<T, O>(front);
        let x = s.last();
        lemma_place::<T, O>(before, x, 0);
        let p = place::<T, O>(before, x, 0);
        vstd::seq_lib::to_multiset_insert(before, p, x);
        assert(front.push(x) =~= s);
    }
}

/// The order is a strict one in which incomparability carries over: what does
/// not come after its successor does not come after the next either.
pub open spec fn is_order<T, O: Order<T>>() -> bool {
    &&& forall|a: O::Model, b: O::Model|
        #![trigger O::less(a, b)]
        !(O::less(a, b) && O::less(b, a))
    &&& forall|a: O::Model, b: O::Model, c: O::Model|
        #![trigger O::less(b, a), O::less(c, b)]
        !O::less(b, a) && !O::less(c, b) ==> !O::less(c, a)
}

/// A sorted list has no element before one that it comes after.
pub proof fn sorting_orders<T, O: Order<T>>(s: Seq<O::Model>)
    requires
        is_order::<T, O>(),
    ensures
        forall|i: int, j: int|
            0 <= i < j < sorted::<T, O>(s).len() ==> !O::less(
                #[trigger] sorted::<T, O>(s)[j],
                #[trigger] sorted::<T, O>(s)[i],
            ),
    decreases s.len(),
{
    if s.len() > 0 {
        let front = s.drop_last();
        sorting_orders::<T, O>(front);
        let before = sorted::<T, O>(front);
        let x = s.last();
        lemma_place::<T, O>(before, x, 0);
        let p = place::<T, O>(before, x, 0);
        let out = before.insert(p, x);
        assert forall|i: int, j: int| 0 <= i < j < out.len() implies !O::less(
            #[trigger] out[j],
            #[trigger] out[i],
        ) by {
            if i < p && j == p {
                assert(out[i] == before[i]);
            } else if i == p {
                assert(out[j] == before[j - 1]);
                assert(O::less(x, before[p]));
                assert(!O::less(before[p], x));
                if j - 1 > p {
                    assert(!O::less(before[j - 1], before[p]));
                }
            } else if i < p && j > p {
                assert(out[i] == before[i]);
                assert(out[j] == before[j - 1]);
            } else if i < p && j < p {
                assert(out[i] == before[i]);
                assert(out[j] == before[j]);
            } else {
                assert(out[i] == before[i - 1]);
                assert(out[j] == before[j - 1]);
            }
        }
    }
}

} // verus!
