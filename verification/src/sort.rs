//! A stable sort.
use vstd::prelude::*;
use vstd::multiset::Multiset;

use crate::dup::views;

verus! {

/// Values with an order.
pub trait Ranked: View + Sized {
    spec fn before(a: Self::V, b: Self::V) -> bool;

    /// Of two values one at most comes before the other, and what comes before neither of its neighbours
    /// does not come before the next.
    proof fn lemma_order(a: Self::V, b: Self::V, c: Self::V)
        ensures
            Self::before(a, b) ==> !Self::before(b, a),
            !Self::before(b, a) && !Self::before(c, b) ==> !Self::before(c, a),
    ;

    fn is_before(&self, other: &Self) -> (r: bool)
        ensures
            r == Self::before(self@, other@),
    ;
}

/// `s` with `x` put in behind everything that it does not come before.
pub open spec fn placed<T: Ranked>(s: Seq<T::V>, x: T::V) -> Seq<T::V>
    decreases s.len(),
{
    if s.len() > 0 && T::before(x, s.last()) {
        placed::<T>(s.drop_last(), x).push(s.last())
    } else {
        s.push(x)
    }
}

/// `s` in order; what ranks the same stays in the order it had.
pub open spec fn sorted<T: Ranked>(s: Seq<T::V>) -> Seq<T::V>
    decreases s.len(),
{
    if s.len() == 0 {
        s
    } else {
        placed::<T>(sorted::<T>(s.drop_last()), s.last())
    }
}

/// No value comes before one that stands in front of it.
pub open spec fn in_order<T: Ranked>(s: Seq<T::V>) -> bool {
    forall|i: int, j: int| 0 <= i <= j < s.len() ==> !T::before(#[trigger] s[j], #[trigger] s[i])
}

/// Sorting puts the elements in order.
pub proof fn law_sorting_orders<T: Ranked>(s: Seq<T::V>)
    ensures
        in_order::<T>(sorted::<T>(s)),
    decreases s.len(),
{
    if s.len() > 0 {
        law_sorting_orders::<T>(s.drop_last());
        lemma_placed_order::<T>(sorted::<T>(s.drop_last()), s.last());
    }
}

proof fn lemma_placed_order<T: Ranked>(s: Seq<T::V>, x: T::V)
    requires
        in_order::<T>(s),
    ensures
        in_order::<T>(placed::<T>(s, x)),
        forall|y: T::V| #[trigger] placed::<T>(s, x).contains(y) ==> s.contains(y) || y == x,
    decreases s.len(),
{
    let t = placed::<T>(s, x);
    if s.len() > 0 && T::before(x, s.last()) {
        let d = s.drop_last();
        let p = placed::<T>(d, x);
        assert forall|i: int, j: int| 0 <= i <= j < d.len() implies !T::before(
            #[trigger] d[j],
            #[trigger] d[i],
        ) by {
            assert(d[i] == s[i] && d[j] == s[j]);
        }
        lemma_placed_order::<T>(d, x);
        assert forall|i: int, j: int| 0 <= i <= j < t.len() implies !T::before(
            #[trigger] t[j],
            #[trigger] t[i],
        ) by {
            T::lemma_order(t[i], t[j], t[j]);
            if j < p.len() {
                assert(t[i] == p[i] && t[j] == p[j]);
            } else if i < p.len() {
                assert(p.contains(p[i]));
                if p[i] == x {
                    T::lemma_order(x, s.last(), x);
                } else {
                    let n = choose|n: int| 0 <= n < d.len() && d[n] == p[i];
                    assert(s[n] == p[i]);
                    assert(!T::before(s[s.len() - 1], s[n]));
                }
            }
        }
        assert forall|y: T::V| #[trigger] t.contains(y) implies s.contains(y) || y == x by {
            let n = choose|n: int| 0 <= n < t.len() && t[n] == y;
            if n < p.len() {
                assert(p.contains(p[n]));
                if d.contains(y) {
                    let m = choose|m: int| 0 <= m < d.len() && d[m] == y;
                    assert(s[m] == y);
                }
            } else {
                assert(s[s.len() - 1] == y);
            }
        }
    } else {
        assert forall|i: int, j: int| 0 <= i <= j < t.len() implies !T::before(
            #[trigger] t[j],
            #[trigger] t[i],
        ) by {
            T::lemma_order(t[i], t[j], t[j]);
            if j < s.len() {
                assert(t[i] == s[i] && t[j] == s[j]);
            } else if i < s.len() {
                T::lemma_order(s[i], s.last(), x);
                assert(!T::before(s[s.len() - 1], s[i]));
            }
        }
        assert forall|y: T::V| #[trigger] t.contains(y) implies s.contains(y) || y == x by {
            let n = choose|n: int| 0 <= n < t.len() && t[n] == y;
            if n < s.len() {
                assert(s[n] == y);
            }
        }
    }
}

/// Sorting keeps the elements.
pub proof fn lemma_sorted_multiset<T: Ranked>(s: Seq<T::V>)
    ensures
        sorted::<T>(s).to_multiset() == s.to_multiset(),
        sorted::<T>(s).len() == s.len(),
    decreases s.len(),
{
    broadcast use vstd::seq_lib::group_to_multiset_ensures;

    if s.len() > 0 {
        lemma_sorted_multiset::<T>(s.drop_last());
        lemma_placed_multiset::<T>(sorted::<T>(s.drop_last()), s.last());
        assert(s =~= s.drop_last().push(s.last()));
    }
}

proof fn lemma_placed_multiset<T: Ranked>(s: Seq<T::V>, x: T::V)
    ensures
        placed::<T>(s, x).to_multiset() == s.push(x).to_multiset(),
        placed::<T>(s, x).len() == s.len() + 1,
    decreases s.len(),
{
    broadcast use vstd::seq_lib::group_to_multiset_ensures;

    if s.len() > 0 && T::before(x, s.last()) {
        lemma_placed_multiset::<T>(s.drop_last(), x);
        assert(s =~= s.drop_last().push(s.last()));
        assert(placed::<T>(s, x).to_multiset() =~= s.push(x).to_multiset());
    }
}

/// Puts `x` into a sorted vector.
fn place<T: Ranked>(v: &mut Vec<T>, x: T)
    ensures
        views(final(v)@) == placed::<T>(views(old(v)@), x@),
{
    let ghost all = views(v@);
    let ghost y = x@;
    let mut i: usize = v.len();
    assert(all.take(i as int) =~= all);
    assert(all.skip(i as int) =~= Seq::empty());
    assert(placed::<T>(all.take(i as int), y) + all.skip(i as int) =~= placed::<T>(all, y));
    while i > 0 && x.is_before(&v[i - 1])
        invariant
            i <= v@.len(),
            all == views(v@),
            y == x@,
            placed::<T>(all, y) == placed::<T>(all.take(i as int), y) + all.skip(i as int),
        decreases i,
    {
        proof {
            let t = all.take(i as int);
            assert(t.last() == v@[i - 1]@);
            assert(t.drop_last() =~= all.take(i - 1));
            assert(all.skip(i - 1) =~= seq![all[i - 1]] + all.skip(i as int));
            assert(placed::<T>(t, y) == placed::<T>(all.take(i - 1), y).push(t.last()));
            assert(placed::<T>(all.take(i - 1), y) + all.skip(i - 1) =~= placed::<T>(t, y) + all.skip(
                i as int,
            ));
        }
        i = i - 1;
    }
    assert(i > 0 ==> all.take(i as int).last() == v@[i - 1]@);
    v.insert(i, x);
    assert(views(v@) =~= all.take(i as int).push(y) + all.skip(i as int));
}

/// Sorts a vector.
pub fn sort<T: Ranked>(v: Vec<T>) -> (r: Vec<T>)
    ensures
        views(r@) == sorted::<T>(views(v@)),
        in_order::<T>(views(r@)),
{
    let ghost all = views(v@);
    let n: usize = v.len();
    let mut rest: Vec<T> = v;
    let mut front: Vec<T> = Vec::new();
    // take the elements from the end, so that they can be placed from the front
    while rest.len() > 0
        invariant
            n == all.len(),
            rest@.len() + front@.len() == n,
            views(rest@) == all.take(rest@.len() as int),
            forall|j: int| 0 <= j < front@.len() ==> (#[trigger] front@[j])@ == all[n - 1 - j],
        decreases rest@.len(),
    {
        let ghost before = views(rest@);
        let ghost k = rest@.len();
        match rest.pop() {
            Some(x) => {
                assert(x@ == before[k - 1]);
                front.push(x);
                assert(views(rest@) =~= all.take(rest@.len() as int));
            },
            None => {},
        }
    }
    let mut out: Vec<T> = Vec::new();
    assert(views(out@) =~= sorted::<T>(all.take(0)));
    while front.len() > 0
        invariant
            n == all.len(),
            front@.len() <= n,
            forall|j: int| 0 <= j < front@.len() ==> (#[trigger] front@[j])@ == all[n - 1 - j],
            views(out@) == sorted::<T>(all.take(n - front@.len())),
        decreases front@.len(),
    {
        let ghost i: int = n - front@.len();
        let ghost k = front@.len();
        match front.pop() {
            Some(x) => {
                assert(x@ == all[i]);
                assert(all.take(i + 1).drop_last() =~= all.take(i));
                place(&mut out, x);
            },
            None => {},
        }
    }
    assert(all.take(n as int) =~= all);
    proof {
        law_sorting_orders::<T>(all);
    }
    out
}

} // verus!
