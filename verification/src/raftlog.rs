//! The keys of the replicated log, and the ranges that are read from it.
use vstd::prelude::*;
use vstd::string::StringExecFns;

use crate::text::{dec, decimal};

verus! {

/// The last `len` bytes of a number, the most significant first.
pub open spec fn be(n: nat, len: nat) -> Seq<u8>
    decreases len,
{
    if len == 0 {
        Seq::empty()
    } else {
        be(n / 256, (len - 1) as nat).push((n % 256) as u8)
    }
}

/// The number that bytes stand for, the most significant first.
pub open spec fn be_value(s: Seq<u8>) -> nat
    decreases s.len(),
{
    if s.len() == 0 {
        0
    } else {
        256 * be_value(s.drop_last()) + s.last() as nat
    }
}

/// The numbers that fit in `len` bytes are those below this.
pub open spec fn be_bound(len: nat) -> nat
    decreases len,
{
    if len == 0 {
        1
    } else {
        256 * be_bound((len - 1) as nat)
    }
}

proof fn lemma_be_value(n: nat, len: nat)
    requires
        n < be_bound(len),
    ensures
        be(n, len).len() == len,
        be_value(be(n, len)) == n,
    decreases len,
{
    if len > 0 {
        assert(n / 256 < be_bound((len - 1) as nat)) by (nonlinear_arith)
            requires
                n < 256 * be_bound((len - 1) as nat),
        ;
        lemma_be_value(n / 256, (len - 1) as nat);
        assert(be(n, len).drop_last() =~= be(n / 256, (len - 1) as nat));
    }
}

proof fn lemma_u64_fits()
    ensures
        be_bound(8) == 0x1_0000_0000_0000_0000,
{
    reveal_with_fuel(be_bound, 9);
}

/// The key of a log entry: its index in eight bytes, the most significant first.
pub fn log_key(index: u64) -> (r: [u8; 8])
    ensures
        r@ == be(index as nat, 8),
{
    let r: [u8; 8] = [
        ((index / 0x100_0000_0000_0000) % 256) as u8,
        ((index / 0x1_0000_0000_0000) % 256) as u8,
        ((index / 0x100_0000_0000) % 256) as u8,
        ((index / 0x1_0000_0000) % 256) as u8,
        ((index / 0x100_0000) % 256) as u8,
        ((index / 0x1_0000) % 256) as u8,
        ((index / 0x100) % 256) as u8,
        (index % 256) as u8,
    ];
    proof {
        reveal_with_fuel(be, 9);
        let n = index as nat;
        assert(n / 256 / 256 == n / 0x1_0000);
        assert(n / 0x1_0000 / 256 == n / 0x100_0000);
        assert(n / 0x100_0000 / 256 == n / 0x1_0000_0000);
        assert(n / 0x1_0000_0000 / 256 == n / 0x100_0000_0000);
        assert(n / 0x100_0000_0000 / 256 == n / 0x1_0000_0000_0000);
        assert(n / 0x1_0000_0000_0000 / 256 == n / 0x100_0000_0000_0000);
        assert(r@ =~= be(n, 8));
    }
    r
}

/// The index in a key, which has at least eight bytes.
pub fn log_index_from_key(key: &[u8]) -> (r: u64)
    requires
        key@.len() >= 8,
    ensures
        r == be_value(key@.take(8)),
{
    let mut r: u64 = 0;
    let mut i: usize = 0;
    assert(key@.take(0) =~= Seq::empty());
    while i < 8
        invariant
            i <= 8,
            key@.len() >= 8,
            r == be_value(key@.take(i as int)),
            r < be_bound(i as nat),
        decreases 8 - i,
    {
        proof {
            assert(key@.take(i + 1).drop_last() =~= key@.take(i as int));
            lemma_bound_grows((i + 1) as nat, 8);
            lemma_u64_fits();
            assert(256 * r + key@[i as int] < 256 * be_bound(i as nat)) by (nonlinear_arith)
                requires
                    r < be_bound(i as nat),
                    0 <= key@[i as int] < 256,
            ;
        }
        r = r * 256 + key[i] as u64;
        i = i + 1;
    }
    r
}

proof fn lemma_bound_grows(a: nat, b: nat)
    requires
        a <= b,
    ensures
        be_bound(a) <= be_bound(b),
        be_bound(a) > 0,
    decreases b,
{
    if a < b {
        lemma_bound_grows(a, (b - 1) as nat);
    } else if a > 0 {
        lemma_bound_grows((a - 1) as nat, (a - 1) as nat);
    }
}

/// Bytes in the order of the store: at the first place where they differ, the smaller byte comes first.
pub open spec fn bytes_less(a: Seq<u8>, b: Seq<u8>) -> bool {
    exists|i: int|
        0 <= i < a.len() && i < b.len() && a.take(i) == b.take(i) && #[trigger] a[i] < #[trigger] b[i]
}

proof fn lemma_order(a: Seq<u8>, b: Seq<u8>)
    requires
        a.len() == b.len(),
    ensures
        bytes_less(a, b) <==> be_value(a) < be_value(b),
        a == b <==> be_value(a) == be_value(b),
    decreases a.len(),
{
    if a.len() > 0 {
        let x = a.drop_last();
        let y = b.drop_last();
        let l = a.len() - 1;
        lemma_order(x, y);
        if x == y {
            assert(a =~= x.push(a.last()));
            assert(b =~= y.push(b.last()));
        }
        if bytes_less(a, b) {
            let i = choose|i: int|
                0 <= i < a.len() && i < b.len() && a.take(i) == b.take(i) && #[trigger] a[i]
                    < #[trigger] b[i];
            if i < l {
                assert(x.take(i) =~= a.take(i));
                assert(y.take(i) =~= b.take(i));
                assert(x[i] < y[i]);
                assert(bytes_less(x, y));
            } else {
                assert(x =~= a.take(i));
                assert(y =~= b.take(i));
            }
        }
        if bytes_less(x, y) {
            let i = choose|i: int|
                0 <= i < x.len() && i < y.len() && x.take(i) == y.take(i) && #[trigger] x[i]
                    < #[trigger] y[i];
            assert(a.take(i) =~= x.take(i));
            assert(b.take(i) =~= y.take(i));
            assert(a[i] < b[i]);
            assert(bytes_less(a, b));
        }
        if x == y && a[l] < b[l] {
            assert(a.take(l) =~= b.take(l));
            assert(bytes_less(a, b));
        }
    } else {
        assert(a =~= b);
    }
}

/// The key of an entry gives its index back.
pub proof fn law_log_key_round_trip(index: u64)
    ensures
        be(index as nat, 8).len() == 8,
        be_value(be(index as nat, 8).take(8)) == index,
{
    lemma_u64_fits();
    lemma_be_value(index as nat, 8);
    assert(be(index as nat, 8).take(8) =~= be(index as nat, 8));
}

/// The store keeps the entries of the log in the order of their indexes.
pub proof fn law_log_keys_keep_order(a: u64, b: u64)
    ensures
        bytes_less(be(a as nat, 8), be(b as nat, 8)) <==> a < b,
{
    lemma_u64_fits();
    lemma_be_value(a as nat, 8);
    lemma_be_value(b as nat, 8);
    lemma_order(be(a as nat, 8), be(b as nat, 8));
}

/// An end of a range of indexes.
#[derive(Debug, Clone, Copy, PartialEq, Eq, Structural)]
pub enum RangeEnd {
    Included(u64),
    Excluded(u64),
    Unbounded,
}

/// Whether an index lies in a range.
pub open spec fn in_range(start: RangeEnd, end: RangeEnd, i: u64) -> bool {
    &&& match start {
        RangeEnd::Included(a) => a <= i,
        RangeEnd::Excluded(a) => a < i,
        RangeEnd::Unbounded => true,
    }
    &&& match end {
        RangeEnd::Included(b) => i <= b,
        RangeEnd::Excluded(b) => i < b,
        RangeEnd::Unbounded => true,
    }
}

/// The first and the last index of a range.
pub fn closed_range(start: RangeEnd, end: RangeEnd) -> (r: (u64, u64))
    requires
        start matches RangeEnd::Excluded(a) ==> a < u64::MAX,
        end matches RangeEnd::Excluded(b) ==> b > 0,
    ensures
        forall|i: u64| #[trigger] in_range(start, end, i) <==> r.0 <= i <= r.1,
{
    let first: u64 = match start {
        RangeEnd::Included(a) => a,
        RangeEnd::Excluded(a) => a + 1,
        RangeEnd::Unbounded => 0,
    };
    let last: u64 = match end {
        RangeEnd::Included(b) => b,
        RangeEnd::Excluded(b) => b - 1,
        RangeEnd::Unbounded => u64::MAX,
    };
    (first, last)
}

/// The name of a snapshot: the index of the last entry in it, where there is one, and its size.
pub fn snapshot_id(last_index: Option<u64>, size: u64) -> (r: String)
    ensures
        r@ == (match last_index {
            Some(i) => dec(i as nat),
            None => Seq::empty(),
        }) + "-"@ + dec(size as nat),
{
    let mut s: String = match last_index {
        Some(i) => decimal(i),
        None => String::new(),
    };
    s.append("-");
    s.append(decimal(size).as_str());
    s
}

/// A range has the indices between its ends, and an end itself exactly where it is included.
pub proof fn law_ranges_have_their_indices(a: u64, b: u64, i: u64)
    ensures
        in_range(RangeEnd::Included(a), RangeEnd::Included(b), i) <==> a <= i && i <= b,
        in_range(RangeEnd::Included(a), RangeEnd::Excluded(b), i) <==> a <= i && i < b,
        in_range(RangeEnd::Excluded(a), RangeEnd::Included(b), i) <==> a < i && i <= b,
        in_range(RangeEnd::Excluded(a), RangeEnd::Excluded(b), i) <==> a < i && i < b,
        in_range(RangeEnd::Included(a), RangeEnd::Unbounded, i) <==> a <= i,
        in_range(RangeEnd::Unbounded, RangeEnd::Included(b), i) <==> i <= b,
        in_range(RangeEnd::Unbounded, RangeEnd::Unbounded, i),
{
}

} // verus!
