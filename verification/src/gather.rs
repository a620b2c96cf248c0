//! Sequences that are put together from parts.
use vstd::prelude::*;

verus! {

/// The parts `f(0)`, `f(1)`, up to `f(n - 1)`, one after another.
pub open spec fn gather<T>(n: nat, f: spec_fn(int) -> Seq<T>) -> Seq<T>
    decreases n,
{
    if n == 0 {
        Seq::empty()
    } else {
        gather((n - 1) as nat, f) + f(n - 1)
    }
}

/// Parts that agree make the same sequence.
pub proof fn lemma_gather_same<T>(n: nat, f: spec_fn(int) -> Seq<T>, g: spec_fn(int) -> Seq<T>)
    requires
        forall|i: int| 0 <= i < n ==> #[trigger] f(i) == g(i),
    ensures
        gather(n, f) == gather(n, g),
    decreases n,
{
    if n > 0 {
        lemma_gather_same((n - 1) as nat, f, g);
    }
}

/// Parts that make nothing are empty.
pub proof fn lemma_gather_empty<T>(n: nat, f: spec_fn(int) -> Seq<T>)
    requires
        gather(n, f).len() == 0,
    ensures
        forall|i: int| 0 <= i < n ==> (#[trigger] f(i)).len() == 0,
    decreases n,
{
    if n > 0 {
        lemma_gather_empty((n - 1) as nat, f);
    }
}

/// One element, or none.
pub open spec fn one_if<T>(b: bool, x: T) -> Seq<T> {
    if b {
        seq![x]
    } else {
        Seq::empty()
    }
}

} // verus!
