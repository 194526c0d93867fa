//! Stable sorting.

use crate::text;
use vstd::prelude::*;
use vstd::seq_lib::*;

verus! {

/// A way to put values of type `T` in order, by their views.
pub trait Order<T: View> {
    /// Whether `a` has to stand before `b`.
    spec fn before(a: T::V, b: T::V) -> bool;

    /// An order is strict, and values that neither way precede one another are alike.
    proof fn is_order(a: T::V, b: T::V, c: T::V)
        ensures
            !Self::before(a, a),
            Self::before(a, b) ==> !Self::before(b, a),
            !Self::before(b, a) && !Self::before(c, b) ==> !Self::before(c, a),
    ;

    /// Whether `a` has to stand before `b`.
    fn is_before(a: &T, b: &T) -> (r: bool)
        ensures
            r == Self::before(a@, b@),
    ;
}

/// The index in `s`, at `i` or after it, before which `x` is put: that of the first value
/// that has to stand after `x`.
pub open spec fn place_from<T: View, O: Order<T>>(s: Seq<T::V>, x: T::V, i: int) -> int
    decreases s.len() - i,
{
    if i >= s.len() {
        s.len() as int
    } else if O::before(x, s[i]) {
        i
    } else {
        place_from::<T, O>(s, x, i + 1)
    }
}

/// `s` with `x` put into its place.
pub open spec fn placed<T: View, O: Order<T>>(s: Seq<T::V>, x: T::V) -> Seq<T::V> {
    s.insert(place_from::<T, O>(s, x, 0), x)
}

/// The values of `s` in order; those that are alike keep the order they have in `s`.
pub open spec fn sorted<T: View, O: Order<T>>(s: Seq<T::V>) -> Seq<T::V>
    decreases s.len(),
{
    if s.len() == 0 {
        s
    } else {
        placed::<T, O>(sorted::<T, O>(s.drop_last()), s.last())
    }
}

/// Whether no value of `s` stands before one that has to precede it.
pub open spec fn in_order<T: View, O: Order<T>>(s: Seq<T::V>) -> bool {
    forall|i: int, j: int| 0 <= i < j < s.len() ==> !O::before(#[trigger] s[j], #[trigger] s[i])
}

proof fn lemma_place_from<T: View, O: Order<T>>(s: Seq<T::V>, x: T::V, i: int)
    requires
        0 <= i <= s.len(),
    ensures
        i <= place_from::<T, O>(s, x, i) <= s.len(),
        forall|j: int| i <= j < place_from::<T, O>(s, x, i) ==> !O::before(x, #[trigger] s[j]),
        place_from::<T, O>(s, x, i) < s.len() ==> O::before(
            x,
            s[place_from::<T, O>(s, x, i)],
        ),
    decreases s.len() - i,
{
    if i < s.len() && !O::before(x, s[i]) {
        lemma_place_from::<T, O>(s, x, i + 1);
    }
}

proof fn lemma_placed_in_order<T: View, O: Order<T>>(s: Seq<T::V>, x: T::V)
    requires
        in_order::<T, O>(s),
    ensures
        in_order::<T, O>(placed::<T, O>(s, x)),
        placed::<T, O>(s, x).len() == s.len() + 1,
        placed::<T, O>(s, x).to_multiset() == s.to_multiset().insert(x),
{
    lemma_place_from::<T, O>(s, x, 0);
    let p = place_from::<T, O>(s, x, 0);
    let r = s.insert(p, x);
    assert forall|i: int, j: int| 0 <= i < j < r.len() implies !O::before(
        #[trigger] r[j],
        #[trigger] r[i],
    ) by {
        if i < p && j == p {
            assert(!O::before(x, s[i]));
        } else if i == p && j > p {
            assert(r[j] == s[j - 1]);
            O::is_order(x, s[p], s[j - 1]);
            if j - 1 > p {
                assert(!O::before(s[j - 1], s[p]));
                O::is_order(x, s[p], s[j - 1]);
                O::is_order(s[p], x, x);
            }
        } else if i < p && j > p {
            assert(r[j] == s[j - 1] && r[i] == s[i]);
        } else if j < p {
            assert(r[j] == s[j] && r[i] == s[i]);
        } else {
            assert(r[j] == s[j - 1] && r[i] == s[i - 1]);
        }
    }
    to_multiset_insert(s, p, x);
}

/// Putting a value into a sequence adds it to the values there.
pub proof fn to_multiset_insert<A>(s: Seq<A>, i: int, x: A)
    requires
        0 <= i <= s.len(),
    ensures
        s.insert(i, x).to_multiset() == s.to_multiset().insert(x),
{
    broadcast use group_to_multiset_ensures;

    let r = s.insert(i, x);
    assert(r =~= s.take(i).push(x) + s.skip(i));
    lemma_multiset_commutative(s.take(i).push(x), s.skip(i));
    lemma_multiset_commutative(s.take(i), s.skip(i));
    assert(s =~= s.take(i) + s.skip(i));
    assert(r.to_multiset() =~= s.to_multiset().insert(x));
}

/// Sorting keeps the values, each as often as it was there, and puts them in order.
pub proof fn sorting_keeps_values_and_orders_them<T: View, O: Order<T>>(s: Seq<T::V>)
    ensures
        sorted::<T, O>(s).len() == s.len(),
        sorted::<T, O>(s).to_multiset() == s.to_multiset(),
        in_order::<T, O>(sorted::<T, O>(s)),
    decreases s.len(),
{
    if s.len() > 0 {
        sorting_keeps_values_and_orders_them::<T, O>(s.drop_last());
        lemma_placed_in_order::<T, O>(sorted::<T, O>(s.drop_last()), s.last());
        assert(s =~= s.drop_last().push(s.last()));
        broadcast use group_to_multiset_ensures;

    }
}

/// A sequence that is in order is left as it is by sorting: values that are alike never
/// change places.
pub proof fn sorting_leaves_ordered_alone<T: View, O: Order<T>>(s: Seq<T::V>)
    requires
        in_order::<T, O>(s),
    ensures
        sorted::<T, O>(s) == s,
    decreases s.len(),
{
    if s.len() > 0 {
        let t = s.drop_last();
        assert forall|i: int, j: int| 0 <= i < j < t.len() implies !O::before(
            #[trigger] t[j],
            #[trigger] t[i],
        ) by {
            assert(t[i] == s[i] && t[j] == s[j]);
        }
        sorting_leaves_ordered_alone::<T, O>(t);
        lemma_place_from::<T, O>(t, s.last(), 0);
        let p = place_from::<T, O>(t, s.last(), 0);
        if p < t.len() {
            assert(t[p] == s[p] && s.last() == s[s.len() - 1]);
        }
        assert(placed::<T, O>(t, s.last()) =~= s);
    }
}

/// The values that are neither before nor after a value keep their order when they are sorted.
pub proof fn sorting_keeps_the_order_of_what_is_alike<T: View, O: Order<T>>(s: Seq<T::V>, x: T::V)
    ensures
        sorted::<T, O>(s).filter(|y: T::V| !O::before(x, y) && !O::before(y, x)) == s.filter(
            |y: T::V| !O::before(x, y) && !O::before(y, x),
        ),
    decreases s.len(),
{
    let alike = |y: T::V| !O::before(x, y) && !O::before(y, x);
    if s.len() > 0 {
        let t = sorted::<T, O>(s.drop_last());
        let z = s.last();
        sorting_keeps_the_order_of_what_is_alike::<T, O>(s.drop_last(), x);
        sorting_keeps_values_and_orders_them::<T, O>(s.drop_last());
        lemma_place_from::<T, O>(t, z, 0);
        let p = place_from::<T, O>(t, z, 0);
        let (head, tail) = (t.take(p), t.skip(p));
        assert(t.insert(p, z) =~= head + seq![z] + tail);
        assert(t =~= head + tail);
        Seq::filter_distributes_over_add(head + seq![z], tail, alike);
        Seq::filter_distributes_over_add(head, seq![z], alike);
        Seq::filter_distributes_over_add(head, tail, alike);
        reveal_with_fuel(Seq::filter, 2);
        assert(seq![z].drop_last() =~= Seq::empty());
        assert(s.filter(alike) == if alike(z) {
            s.drop_last().filter(alike).push(z)
        } else {
            s.drop_last().filter(alike)
        });
        if alike(z) {
            assert forall|j: int| 0 <= j < tail.len() implies !alike(#[trigger] tail[j]) by {
                assert(tail[j] == t[p + j]);
                if j > 0 {
                    assert(!O::before(t[p + j], t[p]));
                }
                O::is_order(t[p], t[p + j], z);
                O::is_order(t[p], t[p], z);
                O::is_order(t[p + j], x, z);
            }
            lemma_nothing_passes(tail, alike);
            assert(sorted::<T, O>(s).filter(alike) =~= s.filter(alike));
        } else {
            assert(seq![z].filter(alike) =~= Seq::empty());
            assert(sorted::<T, O>(s).filter(alike) =~= s.filter(alike));
        }
    }
}

proof fn lemma_nothing_passes<A>(s: Seq<A>, pred: spec_fn(A) -> bool)
    requires
        forall|i: int| 0 <= i < s.len() ==> !pred(#[trigger] s[i]),
    ensures
        s.filter(pred) == Seq::<A>::empty(),
    decreases s.len(),
{
    reveal(Seq::filter);
    if s.len() > 0 {
        assert(!pred(s[s.len() - 1]));
        assert forall|i: int| 0 <= i < s.drop_last().len() implies !pred(
            #[trigger] s.drop_last()[i],
        ) by {
            assert(!pred(s[i]));
        }
        lemma_nothing_passes(s.drop_last(), pred);
    } else {
        assert(s =~= Seq::empty());
    }
}

/// The first value that passes a filter comes first in what it lets through.
pub proof fn lemma_first_that_passes<A>(s: Seq<A>, pred: spec_fn(A) -> bool, m: int)
    requires
        0 <= m < s.len(),
        pred(s[m]),
        forall|i: int| 0 <= i < m ==> !pred(#[trigger] s[i]),
    ensures
        s.filter(pred).len() > 0,
        s.filter(pred)[0] == s[m],
{
    reveal_with_fuel(Seq::filter, 2);
    let (head, tail) = (s.take(m), s.skip(m + 1));
    assert(s =~= head + seq![s[m]] + tail);
    assert forall|i: int| 0 <= i < head.len() implies !pred(#[trigger] head[i]) by {
        assert(!pred(s[i]));
    }
    lemma_nothing_passes(head, pred);
    Seq::filter_distributes_over_add(head + seq![s[m]], tail, pred);
    Seq::filter_distributes_over_add(head, seq![s[m]], pred);
    assert(seq![s[m]].drop_last() =~= Seq::empty());
    assert(seq![s[m]].filter(pred) =~= seq![s[m]]);
}

/// Sorts `v`; values that are alike keep their order.
pub fn sort<T: View, O: Order<T>>(v: Vec<T>) -> (r: Vec<T>)
    ensures
        text::views(r@) == sorted::<T, O>(text::views(v@)),
{
    let mut rest = v;
    let mut r: Vec<T> = Vec::new();
    let ghost all = text::views(v@);
    let n: usize = rest.len();
    let mut taken: Vec<T> = Vec::new();
    // Reverse, so that values can be taken from the end in their first order.
    while rest.len() > 0
        invariant
            rest.len() + taken.len() == n,
            n == all.len(),
            text::views(rest@) == all.take(rest.len() as int),
            forall|i: int| 0 <= i < taken.len() ==> (#[trigger] taken@[i])@ == all[n - 1 - i],
        decreases rest.len(),
    {
        let ghost before = rest@;
        let x = rest.pop().unwrap();
        assert(x@ == text::views(before)[rest.len() as int]);
        assert(text::views(rest@) =~= all.take(rest.len() as int)) by {
            assert forall|i: int| 0 <= i < rest.len() implies text::views(rest@)[i] == all[i] by {
                assert(text::views(before)[i] == all.take(before.len() as int)[i]);
            }
        }
        taken.push(x);
    }
    assert(all.take(0) =~= Seq::empty());
    while taken.len() > 0
        invariant
            r.len() + taken.len() == n,
            n == all.len(),
            text::views(r@) == sorted::<T, O>(all.take(r.len() as int)),
            forall|i: int| 0 <= i < taken.len() ==> (#[trigger] taken@[i])@ == all[n - 1 - i],
        decreases taken.len(),
    {
        let ghost s = text::views(r@);
        let ghost k = r.len() as int;
        let x = taken.pop().unwrap();
        assert(x@ == all[k]);
        let mut p: usize = 0;
        while p < r.len() && !O::is_before(&x, &r[p])
            invariant
                p <= r.len(),
                s == text::views(r@),
                place_from::<T, O>(s, x@, 0) == place_from::<T, O>(s, x@, p as int),
            decreases r.len() - p,
        {
            assert(s[p as int] == r@[p as int]@);
            p = p + 1;
        }
        proof {
            if p < r.len() {
                assert(s[p as int] == r@[p as int]@);
            }
            assert(place_from::<T, O>(s, x@, 0) == p);
            let next = all.take(k + 1);
            assert(next.drop_last() =~= all.take(k));
            assert(next.last() == x@);
        }
        let ghost before = r@;
        r.insert(p, x);
        assert(text::views(r@) =~= s.insert(p as int, x@));
    }
    assert(all.take(n as int) =~= all);
    r
}

} // verus!
