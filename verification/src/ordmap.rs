//! A map with text keys, held in the order of its keys.
use vstd::prelude::*;

use crate::dup::Dup;
use crate::text::{
    has_prefix, lemma_prefix_convex, lemma_prefix_not_less, lemma_text_less_irreflexive,
    lemma_text_less_total, lemma_text_less_transitive, less, text_less,
};

verus! {

/// Rows in strictly ascending order of their keys.
pub open spec fn ascending<T>(rows: Seq<(Seq<char>, T)>) -> bool {
    forall|i: int, j: int|
        0 <= i < j < rows.len() ==> text_less(#[trigger] rows[i].0, #[trigger] rows[j].0)
}

pub open spec fn has_row<T>(rows: Seq<(Seq<char>, T)>, k: Seq<char>) -> bool {
    exists|i: int| 0 <= i < rows.len() && #[trigger] rows[i].0 == k
}

/// `rows` lists the map `m`: every entry once, in ascending order of the keys.
pub open spec fn is_listing<T>(m: Map<Seq<char>, T>, rows: Seq<(Seq<char>, T)>) -> bool {
    &&& ascending(rows)
    &&& forall|i: int|
        0 <= i < rows.len() ==> m.contains_key((#[trigger] rows[i]).0) && m[rows[i].0] == rows[i].1
    &&& forall|k: Seq<char>| #[trigger] m.contains_key(k) ==> has_row(rows, k)
}

/// The entries of `m` in ascending order of the keys.
pub open spec fn listing<T>(m: Map<Seq<char>, T>) -> Seq<(Seq<char>, T)> {
    choose|rows: Seq<(Seq<char>, T)>| is_listing(m, rows)
}

/// A map has one listing at most.
pub proof fn lemma_listing_unique<T>(
    m: Map<Seq<char>, T>,
    a: Seq<(Seq<char>, T)>,
    b: Seq<(Seq<char>, T)>,
)
    requires
        is_listing(m, a),
        is_listing(m, b),
    ensures
        a == b,
    decreases a.len(),
{
    if a.len() == 0 {
        if b.len() > 0 {
            assert(has_row(a, b[0].0));
        }
        assert(a =~= b);
    } else {
        assert(m.contains_key(a[0].0));
        assert(has_row(b, a[0].0));
        let x = a.last();
        let y = b.last();
        assert(m.contains_key(a[a.len() - 1].0));
        assert(m.contains_key(b[b.len() - 1].0));
        lemma_last_is_greatest(m, a, y.0);
        lemma_last_is_greatest(m, b, x.0);
        if x.0 != y.0 {
            lemma_text_less_transitive(x.0, y.0, x.0);
            lemma_text_less_irreflexive(x.0);
        }
        assert(x == y) by {
            assert(m[a[a.len() - 1].0] == x.1);
            assert(m[b[b.len() - 1].0] == y.1);
        }
        lemma_listing_drop_last(m, a);
        lemma_listing_drop_last(m, b);
        lemma_listing_unique(m.remove(x.0), a.drop_last(), b.drop_last());
        assert(a =~= a.drop_last().push(x));
        assert(b =~= b.drop_last().push(y));
    }
}

proof fn lemma_last_is_greatest<T>(m: Map<Seq<char>, T>, a: Seq<(Seq<char>, T)>, k: Seq<char>)
    requires
        is_listing(m, a),
        m.contains_key(k),
    ensures
        a.len() > 0,
        k == a.last().0 || text_less(k, a.last().0),
        m.contains_key(a.last().0),
{
    assert(has_row(a, k));
    let i = choose|i: int| 0 <= i < a.len() && #[trigger] a[i].0 == k;
    let l = a.len() - 1;
    if i < l {
        assert(text_less(a[i].0, a[l].0));
    }
    assert(m.contains_key(a[l].0));
}

pub proof fn lemma_listing_drop_last<T>(m: Map<Seq<char>, T>, a: Seq<(Seq<char>, T)>)
    requires
        is_listing(m, a),
        a.len() > 0,
    ensures
        is_listing(m.remove(a.last().0), a.drop_last()),
{
    let x = a.last();
    let d = a.drop_last();
    assert forall|i: int| 0 <= i < d.len() implies m.remove(x.0).contains_key((#[trigger] d[i]).0)
        && m.remove(x.0)[d[i].0] == d[i].1 by {
        assert(text_less(a[i].0, a[a.len() - 1].0));
        lemma_text_less_irreflexive(x.0);
    }
    assert forall|k: Seq<char>| #[trigger] m.remove(x.0).contains_key(k) implies has_row(d, k) by {
        assert(m.contains_key(k));
        assert(has_row(a, k));
        let i = choose|i: int| 0 <= i < a.len() && #[trigger] a[i].0 == k;
        assert(d[i].0 == k);
    }
    assert(ascending(d)) by {
        assert forall|i: int, j: int| 0 <= i < j < d.len() implies text_less(
            #[trigger] d[i].0,
            #[trigger] d[j].0,
        ) by {
            assert(text_less(a[i].0, a[j].0));
        }
    }
}

/// What lists the map is its listing.
pub proof fn lemma_is_listing<T>(m: Map<Seq<char>, T>, rows: Seq<(Seq<char>, T)>)
    requires
        is_listing(m, rows),
    ensures
        listing(m) == rows,
{
    lemma_listing_unique(m, listing(m), rows);
}

/// Where `k` belongs in ascending rows that do not hold it.
proof fn lemma_place<T>(rows: Seq<(Seq<char>, T)>, k: Seq<char>) -> (p: int)
    requires
        ascending(rows),
        !has_row(rows, k),
    ensures
        0 <= p <= rows.len(),
        forall|i: int| 0 <= i < p ==> text_less(#[trigger] rows[i].0, k),
        forall|i: int| p <= i < rows.len() ==> text_less(k, #[trigger] rows[i].0),
    decreases rows.len(),
{
    if rows.len() == 0 {
        0
    } else {
        let d = rows.drop_last();
        let l = rows.len() - 1;
        assert forall|i: int, j: int| 0 <= i < j < d.len() implies text_less(
            #[trigger] d[i].0,
            #[trigger] d[j].0,
        ) by {
            assert(text_less(rows[i].0, rows[j].0));
        }
        assert(rows[l].0 != k);
        lemma_text_less_total(rows[l].0, k);
        if text_less(rows[l].0, k) {
            assert forall|i: int| 0 <= i < rows.len() implies text_less(#[trigger] rows[i].0, k) by {
                if i < l {
                    assert(text_less(rows[i].0, rows[l].0));
                    lemma_text_less_transitive(rows[i].0, rows[l].0, k);
                }
            }
            rows.len() as int
        } else {
            assert(!has_row(d, k)) by {
                if has_row(d, k) {
                    let i = choose|i: int| 0 <= i < d.len() && #[trigger] d[i].0 == k;
                    assert(rows[i].0 == k);
                }
            }
            let p = lemma_place(d, k);
            assert forall|i: int| 0 <= i < p implies text_less(#[trigger] rows[i].0, k) by {
                assert(d[i] == rows[i]);
            }
            assert forall|i: int| p <= i < rows.len() implies text_less(k, #[trigger] rows[i].0) by {
                if i < l {
                    assert(d[i] == rows[i]);
                }
            }
            p
        }
    }
}

/// A finite map has a listing.
pub proof fn lemma_listing_exists<T>(m: Map<Seq<char>, T>)
    requires
        m.dom().finite(),
    ensures
        is_listing(m, listing(m)),
    decreases m.dom().len(),
{
    if m.dom().len() == 0 {
        let rows = Seq::<(Seq<char>, T)>::empty();
        assert forall|k: Seq<char>| #[trigger] m.contains_key(k) implies has_row(rows, k) by {
            assert(m.dom().contains(k));
            assert(m.dom() =~= Set::empty());
        }
        assert(is_listing(m, rows));
    } else {
        let k = m.dom().choose();
        assert(m.dom().contains(k));
        let less_m = m.remove(k);
        assert(less_m.dom() =~= m.dom().remove(k));
        lemma_listing_exists(less_m);
        let rows = listing(less_m);
        assert(!has_row(rows, k)) by {
            if has_row(rows, k) {
                let i = choose|i: int| 0 <= i < rows.len() && #[trigger] rows[i].0 == k;
                assert(less_m.contains_key(rows[i].0));
            }
        }
        let p = lemma_place(rows, k);
        let now = rows.insert(p, (k, m[k]));
        assert forall|i: int, j: int| 0 <= i < j < now.len() implies text_less(
            #[trigger] now[i].0,
            #[trigger] now[j].0,
        ) by {
            let a: int = if i < p { i } else { i - 1 };
            let b: int = if j < p { j } else { j - 1 };
            if i != p {
                assert(now[i] == rows[a]);
            }
            if j != p {
                assert(now[j] == rows[b]);
            }
        }
        assert forall|i: int| 0 <= i < now.len() implies m.contains_key((#[trigger] now[i]).0)
            && m[now[i].0] == now[i].1 by {
            if i != p {
                let a: int = if i < p { i } else { i - 1 };
                assert(now[i] == rows[a]);
                assert(less_m.contains_key(rows[a].0));
            }
        }
        assert forall|q: Seq<char>| #[trigger] m.contains_key(q) implies has_row(now, q) by {
            if q == k {
                assert(now[p].0 == q);
            } else {
                assert(less_m.contains_key(q));
                assert(has_row(rows, q));
                let i = choose|i: int| 0 <= i < rows.len() && #[trigger] rows[i].0 == q;
                if i < p {
                    assert(now[i].0 == q);
                } else {
                    assert(now[i + 1].0 == q);
                }
            }
        }
        assert(is_listing(m, now));
    }
}

/// A way to make values of one type from values of another.
pub(crate) trait Recast<V: View, U: View> {
    spec fn recast_of(&self, v: V::V) -> U::V;

    fn recast(&self, v: &V) -> (u: U)
        ensures
            u@ == self.recast_of(v@),
    ;
}

/// A map from text to values, kept as a vector in ascending order of the keys.
#[derive(Debug, PartialEq)]
pub struct OrdMap<V> {
    entries: Vec<(String, V)>,
}

impl<V> OrdMap<V> {
    #[verifier::type_invariant]
    spec fn ordered(self) -> bool {
        forall|i: int, j: int|
            0 <= i < j < self.entries@.len() ==> text_less(
                #[trigger] self.entries@[i].0@,
                #[trigger] self.entries@[j].0@,
            )
    }
}

impl<V: View> OrdMap<V> {
    /// The entries in the order in which they are held.
    pub closed spec fn rows(&self) -> Seq<(Seq<char>, V::V)> {
        Seq::new(self.entries@.len(), |i: int| (self.entries@[i].0@, self.entries@[i].1@))
    }
}

/// The map whose entries are `rows` (a later row replaces an earlier one with its key).
pub open spec fn rows_map<T>(rows: Seq<(Seq<char>, T)>) -> Map<Seq<char>, T>
    decreases rows.len(),
{
    if rows.len() == 0 {
        Map::empty()
    } else {
        rows_map(rows.drop_last()).insert(rows.last().0, rows.last().1)
    }
}

pub proof fn lemma_rows_map<T>(rows: Seq<(Seq<char>, T)>)
    requires
        ascending(rows),
    ensures
        is_listing(rows_map(rows), rows),
    decreases rows.len(),
{
    if rows.len() > 0 {
        let d = rows.drop_last();
        let x = rows.last();
        let m = rows_map(rows);
        assert forall|i: int, j: int| 0 <= i < j < d.len() implies text_less(
            #[trigger] d[i].0,
            #[trigger] d[j].0,
        ) by {
            assert(text_less(rows[i].0, rows[j].0));
        }
        lemma_rows_map(d);
        assert forall|i: int| 0 <= i < rows.len() implies m.contains_key((#[trigger] rows[i]).0)
            && m[rows[i].0] == rows[i].1 by {
            if i < d.len() {
                assert(d[i] == rows[i]);
                assert(text_less(rows[i].0, rows[rows.len() - 1].0));
                lemma_text_less_irreflexive(x.0);
            }
        }
        assert forall|k: Seq<char>| #[trigger] m.contains_key(k) implies has_row(rows, k) by {
            if k == x.0 {
                assert(rows[rows.len() - 1].0 == k);
            } else {
                assert(rows_map(d).contains_key(k));
                assert(has_row(d, k));
                let i = choose|i: int| 0 <= i < d.len() && #[trigger] d[i].0 == k;
                assert(rows[i].0 == k);
            }
        }
    }
}

impl<V: View> View for OrdMap<V> {
    type V = Map<Seq<char>, V::V>;

    closed spec fn view(&self) -> Map<Seq<char>, V::V> {
        rows_map(self.rows())
    }
}

impl<V: View> OrdMap<V> {
    /// The rows are the listing of the map.
    proof fn lemma_rows(&self)
        requires
            self.ordered(),
        ensures
            is_listing(self@, self.rows()),
            listing(self@) == self.rows(),
    {
        lemma_rows_map(self.rows());
        lemma_is_listing(self@, self.rows());
    }

    pub fn new() -> (r: Self)
        ensures
            r@ == Map::<Seq<char>, V::V>::empty(),
    {
        let r: OrdMap<V> = OrdMap { entries: Vec::new() };
        assert(r.rows() =~= Seq::empty());
        r
    }

    pub fn len(&self) -> (n: usize)
        ensures
            n == listing(self@).len(),
            is_listing(self@, listing(self@)),
    {
        proof {
            use_type_invariant(&*self);
            self.lemma_rows();
        }
        self.entries.len()
    }

    /// The key of the row at `i`.
    pub fn key_at(&self, i: usize) -> (k: &String)
        requires
            i < listing(self@).len(),
        ensures
            k@ == listing(self@)[i as int].0,
            self@.contains_key(k@),
    {
        proof {
            use_type_invariant(&*self);
            self.lemma_rows();
        }
        &self.entries[i].0
    }

    /// The value of the row at `i`.
    pub fn value_at(&self, i: usize) -> (v: &V)
        requires
            i < listing(self@).len(),
        ensures
            v@ == listing(self@)[i as int].1,
    {
        proof {
            use_type_invariant(&*self);
            self.lemma_rows();
        }
        &self.entries[i].1
    }

    /// The number of keys that come before `key`.
    fn position(&self, key: &str) -> (p: usize)
        ensures
            p <= self.rows().len(),
            forall|i: int| 0 <= i < p ==> text_less(#[trigger] self.rows()[i].0, key@),
            forall|i: int|
                p <= i < self.rows().len() ==> !text_less(#[trigger] self.rows()[i].0, key@),
    {
        proof {
            use_type_invariant(self);
        }
        let mut lo: usize = 0;
        let mut hi: usize = self.entries.len();
        while lo < hi
            invariant
                lo <= hi <= self.entries@.len(),
                forall|i: int| 0 <= i < lo ==> text_less(#[trigger] self.entries@[i].0@, key@),
                forall|i: int|
                    hi <= i < self.entries@.len() ==> !text_less(
                        #[trigger] self.entries@[i].0@,
                        key@,
                    ),
                self.ordered(),
            decreases hi - lo,
        {
            let mid: usize = lo + (hi - lo) / 2;
            if less(self.entries[mid].0.as_str(), key) {
                assert forall|i: int| 0 <= i < mid + 1 implies text_less(
                    #[trigger] self.entries@[i].0@,
                    key@,
                ) by {
                    if i < mid {
                        lemma_text_less_transitive(
                            self.entries@[i].0@,
                            self.entries@[mid as int].0@,
                            key@,
                        );
                    }
                }
                lo = mid + 1;
            } else {
                assert forall|i: int| mid <= i < self.entries@.len() implies !text_less(
                    #[trigger] self.entries@[i].0@,
                    key@,
                ) by {
                    if i > mid && text_less(self.entries@[i].0@, key@) {
                        lemma_text_less_transitive(
                            self.entries@[mid as int].0@,
                            self.entries@[i].0@,
                            key@,
                        );
                    }
                }
                hi = mid;
            }
        }
        lo
    }

    /// The index of `key`, if it is there.
    pub fn find(&self, key: &str) -> (r: Option<usize>)
        ensures
            match r {
                Some(i) => i < listing(self@).len() && listing(self@)[i as int].0 == key@
                    && self@.contains_key(key@) && self@[key@] == listing(self@)[i as int].1,
                None => !self@.contains_key(key@),
            },
    {
        proof {
            use_type_invariant(&*self);
            self.lemma_rows();
        }
        let p: usize = self.position(key);
        let ghost rows = self.rows();
        if p < self.entries.len() && !less(key, self.entries[p].0.as_str()) {
            proof {
                lemma_text_less_total(key@, rows[p as int].0);
                assert(self@.contains_key(rows[p as int].0));
            }
            return Some(p);
        }
        proof {
            if self@.contains_key(key@) {
                assert(has_row(rows, key@));
                let i = choose|i: int| 0 <= i < rows.len() && #[trigger] rows[i].0 == key@;
                lemma_text_less_irreflexive(key@);
                assert(p <= i);
                if p < i {
                    assert(text_less(rows[p as int].0, rows[i].0));
                }
            }
        }
        None
    }

    pub fn contains_key(&self, key: &str) -> (r: bool)
        ensures
            r == self@.contains_key(key@),
    {
        self.find(key).is_some()
    }

    pub fn get(&self, key: &str) -> (r: Option<&V>)
        ensures
            match r {
                Some(v) => self@.contains_key(key@) && v@ == self@[key@],
                None => !self@.contains_key(key@),
            },
    {
        match self.find(key) {
            Some(i) => Some(self.value_at(i)),
            None => None,
        }
    }

    /// The rows, from `.0` up to `.1`, whose keys begin with `prefix`.
    pub fn range(&self, prefix: &str) -> (r: (usize, usize))
        ensures
            r.0 <= r.1 <= listing(self@).len(),
            is_listing(self@, listing(self@)),
            forall|i: int|
                0 <= i < listing(self@).len() ==> (prefix@.is_prefix_of(
                    #[trigger] listing(self@)[i].0,
                ) <==> r.0 <= i < r.1),
    {
        proof {
            use_type_invariant(self);
            self.lemma_rows();
        }
        let lo: usize = self.position(prefix);
        let ghost rows = self.rows();
        let mut hi: usize = lo;
        assert forall|i: int| 0 <= i < lo implies !prefix@.is_prefix_of(#[trigger] rows[i].0) by {
            if prefix@.is_prefix_of(rows[i].0) {
                lemma_prefix_not_less(prefix@, rows[i].0);
            }
        }
        while hi < self.entries.len()
            invariant
                lo <= hi <= rows.len(),
                rows == self.rows(),
                rows == listing(self@),
                is_listing(self@, rows),
                forall|i: int| 0 <= i < lo ==> !prefix@.is_prefix_of(#[trigger] rows[i].0),
                forall|i: int| lo <= i < hi ==> prefix@.is_prefix_of(#[trigger] rows[i].0),
                forall|i: int| lo <= i < rows.len() ==> !text_less(#[trigger] rows[i].0, prefix@),
            decreases rows.len() - hi,
        {
            if !has_prefix(self.entries[hi].0.as_str(), prefix) {
                assert forall|i: int| hi <= i < rows.len() implies !prefix@.is_prefix_of(
                    #[trigger] rows[i].0,
                ) by {
                    if i > hi && prefix@.is_prefix_of(rows[i].0) {
                        assert(text_less(rows[hi as int].0, rows[i].0));
                        lemma_prefix_convex(prefix@, rows[hi as int].0, rows[i].0);
                    }
                }
                return (lo, hi);
            }
            hi = hi + 1;
        }
        (lo, hi)
    }

    /// Puts `value` under `key`, in place of what was there.
    pub fn insert(&mut self, key: String, value: V)
        ensures
            final(self)@ == old(self)@.insert(key@, value@),
    {
        proof {
            use_type_invariant(&*self);
            self.lemma_rows();
        }
        let p: usize = self.position(key.as_str());
        let ghost rows = self.rows();
        let ghost k = key@;
        let ghost v = value@;
        let ghost m = self@;
        if p < self.entries.len() && !less(key.as_str(), self.entries[p].0.as_str()) {
            proof {
                lemma_text_less_total(key@, rows[p as int].0);
                use_type_invariant(&*self);
            }
            let mut entries: Vec<(String, V)> = Vec::new();
            core::mem::swap(&mut self.entries, &mut entries);
            entries.set(p, (key, value));
            self.entries = entries;
            assert(self.rows() =~= rows.update(p as int, (k, v)));
        } else {
            proof {
                use_type_invariant(&*self);
                assert forall|i: int| p <= i < rows.len() implies text_less(
                    k,
                    #[trigger] rows[i].0,
                ) by {
                    if i > p {
                        assert(text_less(rows[p as int].0, rows[i].0));
                        lemma_text_less_transitive(k, rows[p as int].0, rows[i].0);
                    }
                }
            }
            let mut entries: Vec<(String, V)> = Vec::new();
            core::mem::swap(&mut self.entries, &mut entries);
            let ghost was = entries@;
            entries.insert(p, (key, value));
            proof {
                assert forall|i: int, j: int| 0 <= i < j < entries@.len() implies text_less(
                    #[trigger] entries@[i].0@,
                    #[trigger] entries@[j].0@,
                ) by {
                    let a: int = if i < p { i } else { i - 1 };
                    let b: int = if j < p { j } else { j - 1 };
                    if i != p {
                        assert(entries@[i] == was[a]);
                        assert(rows[a].0 == was[a].0@);
                    }
                    if j != p {
                        assert(entries@[j] == was[b]);
                        assert(rows[b].0 == was[b].0@);
                    }
                }
            }
            self.entries = entries;
            assert(self.rows() =~= rows.insert(p as int, (k, v)));
        }
        proof {
            use_type_invariant(&*self);
            let now = self.rows();
            assert forall|q: Seq<char>| #[trigger] m.insert(k, v).contains_key(q) implies has_row(
                now,
                q,
            ) by {
                if q == k {
                    assert(now[p as int].0 == k);
                } else {
                    assert(has_row(rows, q));
                    let i = choose|i: int| 0 <= i < rows.len() && #[trigger] rows[i].0 == q;
                    if now.len() == rows.len() || i < p {
                        assert(now[i].0 == q);
                    } else {
                        assert(now[i + 1].0 == q);
                    }
                }
            }
            assert forall|i: int| 0 <= i < now.len() implies m.insert(k, v).contains_key(
                (#[trigger] now[i]).0,
            ) && m.insert(k, v)[now[i].0] == now[i].1 by {
                lemma_text_less_irreflexive(k);
                if i != p {
                    if now.len() == rows.len() || i < p {
                        assert(now[i] == rows[i]);
                    } else {
                        assert(now[i] == rows[i - 1]);
                    }
                    if i < p {
                        assert(text_less(now[i].0, now[p as int].0));
                    } else {
                        assert(text_less(now[p as int].0, now[i].0));
                    }
                }
            }
            assert(is_listing(m.insert(k, v), now));
            use_type_invariant(&*self);
            self.lemma_rows();
            lemma_listing_determines(m.insert(k, v), self@, now);
        }
    }

    /// Takes the entry under `key` away, if there is one.
    pub fn remove(&mut self, key: &str)
        ensures
            final(self)@ == old(self)@.remove(key@),
    {
        let _ = self.take(key);
    }

    /// Takes the entry under `key` out of the map.
    pub fn take(&mut self, key: &str) -> (r: Option<V>)
        ensures
            final(self)@ == old(self)@.remove(key@),
            match r {
                Some(v) => old(self)@.contains_key(key@) && v@ == old(self)@[key@],
                None => !old(self)@.contains_key(key@),
            },
    {
        let ghost rows = self.rows();
        let ghost m = self@;
        proof {
            use_type_invariant(&*self);
            self.lemma_rows();
        }
        match self.find(key) {
            Some(p) => {
                proof {
                    use_type_invariant(&*self);
                }
                let mut entries: Vec<(String, V)> = Vec::new();
                core::mem::swap(&mut self.entries, &mut entries);
                let taken: (String, V) = entries.remove(p);
                self.entries = entries;
                proof {
                    let now = self.rows();
                    assert(now =~= rows.remove(p as int));
                    assert forall|q: Seq<char>| #[trigger] m.remove(key@).contains_key(q) implies has_row(
                        now,
                        q,
                    ) by {
                        assert(has_row(rows, q));
                        let i = choose|i: int| 0 <= i < rows.len() && #[trigger] rows[i].0 == q;
                        if i < p {
                            assert(now[i].0 == q);
                        } else {
                            assert(now[i - 1].0 == q);
                        }
                    }
                    assert forall|i: int| 0 <= i < now.len() implies m.remove(key@).contains_key(
                        (#[trigger] now[i]).0,
                    ) && m.remove(key@)[now[i].0] == now[i].1 by {
                        lemma_text_less_irreflexive(key@);
                        if i < p {
                            assert(now[i] == rows[i]);
                            assert(text_less(rows[i].0, rows[p as int].0));
                        } else {
                            assert(now[i] == rows[i + 1]);
                            assert(text_less(rows[p as int].0, rows[i + 1].0));
                        }
                    }
                    use_type_invariant(&*self);
                    assert(is_listing(m.remove(key@), now));
                    use_type_invariant(&*self);
                    self.lemma_rows();
                    lemma_listing_determines(m.remove(key@), self@, now);
                }
                Some(taken.1)
            },
            None => {
                assert(m.remove(key@) =~= m);
                None
            },
        }
    }

    /// The map with every value replaced by what `f` makes of it.
    pub(crate) fn map_values<U: View, F: Recast<V, U>>(&self, f: &F) -> (r: OrdMap<U>)
        ensures
            r@ == self@.map_values(|v: V::V| f.recast_of(v)),
    {
        let ghost g = |v: V::V| f.recast_of(v);
        proof {
            use_type_invariant(self);
            self.lemma_rows();
        }
        let mut entries: Vec<(String, U)> = Vec::new();
        let mut i: usize = 0;
        while i < self.entries.len()
            invariant
                i == entries@.len(),
                i <= self.entries@.len(),
                self.ordered(),
                g == |v: V::V| f.recast_of(v),
                forall|j: int|
                    0 <= j < i ==> (#[trigger] entries@[j]).0@ == self.entries@[j].0@
                        && entries@[j].1@ == g(self.entries@[j].1@),
            decreases self.entries@.len() - i,
        {
            entries.push((self.entries[i].0.clone(), f.recast(&self.entries[i].1)));
            i = i + 1;
        }
        let r: OrdMap<U> = OrdMap { entries };
        proof {
            use_type_invariant(&r);
            r.lemma_rows();
            let rows = self.rows();
            let now = r.rows();
            let m = self@.map_values(g);
            assert forall|j: int| 0 <= j < now.len() implies m.contains_key((#[trigger] now[j]).0)
                && m[now[j].0] == now[j].1 by {
                assert(self@.contains_key(rows[j].0));
            }
            assert forall|k: Seq<char>| #[trigger] m.contains_key(k) implies has_row(now, k) by {
                assert(has_row(rows, k));
                let j = choose|j: int| 0 <= j < rows.len() && #[trigger] rows[j].0 == k;
                assert(now[j].0 == k);
            }
            assert(is_listing(m, now));
            lemma_listing_determines(m, r@, now);
        }
        r
    }

    pub fn is_empty(&self) -> (r: bool)
        ensures
            r == (self@ == Map::<Seq<char>, V::V>::empty()),
    {
        let n: usize = self.len();
        proof {
            let rows = listing(self@);
            if n == 0 {
                assert forall|k: Seq<char>| !self@.contains_key(k) by {
                    if self@.contains_key(k) {
                        assert(has_row(rows, k));
                    }
                }
                assert(self@ =~= Map::empty());
            } else {
                assert(self@.contains_key(rows[0].0));
            }
        }
        n == 0
    }
}

/// Two maps with one listing are the same.
pub proof fn lemma_listing_determines<T>(
    a: Map<Seq<char>, T>,
    b: Map<Seq<char>, T>,
    rows: Seq<(Seq<char>, T)>,
)
    requires
        is_listing(a, rows),
        is_listing(b, rows),
    ensures
        a == b,
{
    assert forall|k: Seq<char>| a.contains_key(k) == b.contains_key(k) && (a.contains_key(k)
        ==> a[k] == b[k]) by {
        if a.contains_key(k) {
            assert(has_row(rows, k));
        }
        if b.contains_key(k) {
            assert(has_row(rows, k));
        }
    }
    assert(a =~= b);
}

impl<V: Dup> Clone for OrdMap<V> {
    fn clone(&self) -> (r: Self)
        ensures
            r@ == self@,
    {
        self.dup()
    }
}

impl<V: Dup> Dup for OrdMap<V> {
    fn dup(&self) -> (r: Self) {
        let mut entries: Vec<(String, V)> = Vec::new();
        let mut i: usize = 0;
        proof {
            use_type_invariant(self);
        }
        while i < self.entries.len()
            invariant
                i == entries@.len(),
                i <= self.entries@.len(),
                self.ordered(),
                forall|j: int|
                    0 <= j < i ==> (#[trigger] entries@[j]).0@ == self.entries@[j].0@
                        && entries@[j].1@ == self.entries@[j].1@,
            decreases self.entries@.len() - i,
        {
            entries.push((self.entries[i].0.clone(), self.entries[i].1.dup()));
            i = i + 1;
        }
        let r: OrdMap<V> = OrdMap { entries };
        assert(r.rows() =~= self.rows());
        r
    }
}

} // verus!
