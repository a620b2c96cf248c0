//! The deterministic state machine. Commands change the state; while one is applied its writes are
//! held back, so that they reach the store together or not at all.
mod apply;
mod drafts;
mod projects;
mod publishing;
mod reads;
mod removal;
mod rewrap;
mod sessions;
mod shared;
mod upkeep;
mod versions;

pub use rewrap::{
    all_at_rest, at_rest, change_kept, change_renewed, diff_done, draft_done, draft_group_done,
    entries_done, entry_at_rest, entry_done, group_done, group_times, group_values, in_changes,
    in_draft, in_entry, in_group, in_snap, in_state, is_state_key, kept, marks, moves, offered,
    refused, renewed, rows_done, settled, snap_done,
};
pub use projects::{valid_branch, valid_name};
pub use sessions::valid_pa_username;
pub use versions::ConfigSnapshot;

use vstd::prelude::*;

use crate::dup::{Dup, dup_vec, views};
use crate::error::Error;
use crate::model::{Entry, EntryView, PublishEvent};
use crate::ordmap::{
    OrdMap, has_row, is_listing, lemma_is_listing, lemma_listing_drop_last, listing,
};
use crate::step::{keys_of, projects};
use crate::store::{KeyValuePairs, State, Store, delete_all, put_all, row_views, scan, under};
use crate::text::{has_prefix, same};

verus! {

/// A write that is held back.
#[derive(Debug)]
pub enum PendingOp {
    Put(String, Entry),
    Delete(String),
}

/// What a [`PendingOp`] stands for.
pub enum OpView {
    Put(Seq<char>, EntryView),
    Delete(Seq<char>),
}

impl View for PendingOp {
    type V = OpView;

    open spec fn view(&self) -> OpView {
        match *self {
            PendingOp::Put(k, v) => OpView::Put(k@, v@),
            PendingOp::Delete(k) => OpView::Delete(k@),
        }
    }
}

impl Dup for PendingOp {
    fn dup(&self) -> (r: Self) {
        match self {
            PendingOp::Put(k, v) => PendingOp::Put(k.clone(), v.dup()),
            PendingOp::Delete(k) => PendingOp::Delete(k.clone()),
        }
    }
}

/// The state after one write.
pub open spec fn apply_op(s: State, op: OpView) -> State {
    match op {
        OpView::Put(k, v) => s.insert(k, v),
        OpView::Delete(k) => s.remove(k),
    }
}

/// The state after the writes, one after another: for each key the last one decides.
pub open spec fn apply_ops(s: State, ops: Seq<OpView>) -> State
    decreases ops.len(),
{
    if ops.len() == 0 {
        s
    } else {
        apply_op(apply_ops(s, ops.drop_last()), ops.last())
    }
}

/// What applying a command gives: the events for those who watch, or an error.
pub type ApplyOutcome = Result<Vec<PublishEvent>, Error>;

/// The state machine over a store.
pub struct StateMachine<S> {
    store: S,
    pending: Vec<PendingOp>,
}

impl<S: Store> StateMachine<S> {
    /// What the store holds.
    pub closed spec fn base(&self) -> State {
        self.store.contents()
    }

    /// Whether the store is reliable.
    pub closed spec fn reliable(&self) -> bool {
        self.store.reliable()
    }

    /// The writes that are held back.
    pub closed spec fn ops(&self) -> Seq<OpView> {
        views(self.pending@)
    }

    /// Nothing is held back.
    pub open spec fn idle(&self) -> bool {
        self.ops().len() == 0
    }
}

impl<S: Store> View for StateMachine<S> {
    type V = State;

    /// The state as reads see it: the store with the writes that are held back.
    open spec fn view(&self) -> State {
        apply_ops(self.base(), self.ops())
    }
}

/// The rows of a listing, put one after another, replace what was under their keys.
proof fn lemma_put_listing(s: State, m: State, rows: Seq<(Seq<char>, EntryView)>)
    requires
        is_listing(m, rows),
    ensures
        put_all(s, rows) == s.union_prefer_right(m),
    decreases rows.len(),
{
    if rows.len() == 0 {
        assert forall|k: Seq<char>| !m.contains_key(k) by {
            if m.contains_key(k) {
                assert(has_row(rows, k));
            }
        }
        assert(s.union_prefer_right(m) =~= s);
    } else {
        let x = rows.last();
        lemma_listing_drop_last(m, rows);
        lemma_put_listing(s, m.remove(x.0), rows.drop_last());
        assert(m.contains_key(rows[rows.len() - 1].0));
        assert(s.union_prefer_right(m.remove(x.0)).insert(x.0, x.1) =~= s.union_prefer_right(m));
    }
}

impl<S: Store> StateMachine<S> {
    pub fn new(store: S) -> (r: Self)
        ensures
            r@ == store.contents(),
            r.base() == store.contents(),
            r.reliable() == store.reliable(),
            r.idle(),
    {
        StateMachine { store, pending: Vec::new() }
    }

    /// The store.
    pub fn store(&self) -> (r: &S)
        ensures
            r.contents() == self.base(),
            r.reliable() == self.reliable(),
    {
        &self.store
    }

    /// Holds back a put.
    pub fn put_pending(&mut self, key: String, value: Entry)
        ensures
            final(self)@ == old(self)@.insert(key@, value@),
            final(self).base() == old(self).base(),
            final(self).reliable() == old(self).reliable(),
    {
        let ghost before = self.ops();
        let op: PendingOp = PendingOp::Put(key, value);
        let ghost o = op@;
        self.pending.push(op);
        proof {
            assert(self.ops() =~= before.push(o));
            assert(self.ops().drop_last() =~= before);
        }
    }

    /// Holds back a deletion.
    pub fn delete_pending(&mut self, key: &str)
        ensures
            final(self)@ == old(self)@.remove(key@),
            final(self).base() == old(self).base(),
            final(self).reliable() == old(self).reliable(),
    {
        let ghost before = self.ops();
        let op: PendingOp = PendingOp::Delete(key.to_owned());
        let ghost o = op@;
        self.pending.push(op);
        proof {
            assert(self.ops() =~= before.push(o));
            assert(self.ops().drop_last() =~= before);
        }
    }

    /// Drops what is held back.
    pub fn abort_pending(&mut self)
        ensures
            final(self)@ == old(self).base(),
            final(self).base() == old(self).base(),
            final(self).reliable() == old(self).reliable(),
            final(self).idle(),
    {
        self.pending = Vec::new();
    }

    /// The writes that are held back.
    pub(crate) fn held(&self) -> (r: Vec<PendingOp>)
        ensures
            views(r@) == self.ops(),
    {
        dup_vec(&self.pending)
    }

    /// Holds back these writes and no others.
    pub(crate) fn hold(&mut self, ops: Vec<PendingOp>)
        ensures
            final(self).ops() == views(ops@),
            final(self).base() == old(self).base(),
            final(self).reliable() == old(self).reliable(),
    {
        self.pending = ops;
    }

    /// Writes one entry to the store at once.
    pub(crate) fn write_through(&mut self, key: &str, value: &Entry) -> (r: Result<(), Error>)
        requires
            old(self).idle(),
        ensures
            final(self).idle(),
            final(self).reliable() == old(self).reliable(),
            final(self)@ == final(self).base(),
            match r {
                Ok(_) => final(self)@ == old(self)@.insert(key@, value@),
                Err(_) => !old(self).reliable() && final(self)@ == old(self)@,
            },
    {
        self.store.put(key, value)
    }

    /// Reads an entry: the last write that is held back decides, and else the store.
    pub fn get_merged(&self, key: &str) -> (r: Result<Option<Entry>, Error>)
        ensures
            match r {
                Ok(Some(e)) => self@.contains_key(key@) && e@ == self@[key@],
                Ok(None) => !self@.contains_key(key@),
                Err(_) => !self.reliable(),
            },
    {
        let ghost ops = self.ops();
        let mut i: usize = self.pending.len();
        assert(ops.take(i as int) =~= ops);
        while i > 0
            invariant
                i <= self.pending@.len(),
                ops == self.ops(),
                ops == views(self.pending@),
                self@ == apply_ops(self.base(), ops),
                self@.contains_key(key@) == apply_ops(self.base(), ops.take(i as int)).contains_key(
                    key@,
                ),
                self@.contains_key(key@) ==> self@[key@] == apply_ops(
                    self.base(),
                    ops.take(i as int),
                )[key@],
            decreases i,
        {
            i = i - 1;
            proof {
                assert(ops.take(i + 1).drop_last() =~= ops.take(i as int));
                assert(ops.take(i + 1).last() == self.pending@[i as int]@);
            }
            match &self.pending[i] {
                PendingOp::Put(k, v) => {
                    if same(k.as_str(), key) {
                        return Ok(Some(v.dup()));
                    }
                },
                PendingOp::Delete(k) => {
                    if same(k.as_str(), key) {
                        return Ok(None);
                    }
                },
            }
        }
        assert(ops.take(0) =~= Seq::empty());
        self.store.get(key)
    }

    /// The entries whose keys begin with `prefix`, those that are held back among them.
    pub fn get_prefix_merged(&self, prefix: &str) -> (r: Result<KeyValuePairs, Error>)
        ensures
            match r {
                Ok(rows) => row_views(rows@) == scan(self@, prefix@) && is_listing(
                    under(self@, prefix@),
                    row_views(rows@),
                ),
                Err(_) => !self.reliable(),
            },
    {
        let rows: KeyValuePairs = self.store.get_prefix(prefix)?;
        let ghost ops = self.ops();
        let ghost base = self.base();
        if self.pending.len() == 0 {
            proof {
                lemma_is_listing(under(base, prefix@), row_views(rows@));
            }
            return Ok(rows);
        }
        let ghost start = row_views(rows@);
        let mut out: OrdMap<Entry> = OrdMap::new();
        let mut i: usize = 0;
        assert(start.take(0) =~= Seq::empty());
        while i < rows.len()
            invariant
                i <= rows@.len(),
                start == row_views(rows@),
                out@ == put_all(State::empty(), start.take(i as int)),
            decreases rows@.len() - i,
        {
            assert(start.take(i + 1).drop_last() =~= start.take(i as int));
            out.insert(rows[i].0.clone(), rows[i].1.dup());
            i = i + 1;
        }
        proof {
            assert(start.take(i as int) =~= start);
            lemma_put_listing(State::empty(), under(base, prefix@), start);
            assert(State::empty().union_prefer_right(under(base, prefix@)) =~= under(base, prefix@));
            assert(ops.take(0) =~= Seq::empty());
        }
        let mut i: usize = 0;
        while i < self.pending.len()
            invariant
                i <= self.pending@.len(),
                ops == views(self.pending@),
                out@ == under(apply_ops(base, ops.take(i as int)), prefix@),
            decreases self.pending@.len() - i,
        {
            proof {
                assert(ops.take(i + 1).drop_last() =~= ops.take(i as int));
                assert(ops.take(i + 1).last() == self.pending@[i as int]@);
            }
            let ghost s = apply_ops(base, ops.take(i as int));
            let ghost t = apply_ops(base, ops.take(i + 1));
            match &self.pending[i] {
                PendingOp::Put(k, v) => {
                    if has_prefix(k.as_str(), prefix) {
                        out.insert(k.clone(), v.dup());
                        assert(under(t, prefix@) =~= under(s, prefix@).insert(k@, v@));
                    } else {
                        assert(under(t, prefix@) =~= under(s, prefix@));
                    }
                },
                PendingOp::Delete(k) => {
                    if has_prefix(k.as_str(), prefix) {
                        out.remove(k.as_str());
                        assert(under(t, prefix@) =~= under(s, prefix@).remove(k@));
                    } else {
                        assert(under(t, prefix@) =~= under(s, prefix@));
                    }
                },
            }
            i = i + 1;
        }
        assert(ops.take(i as int) =~= ops);
        Ok(rows_of(&out))
    }

    /// Writes what is held back to the store, in one transaction.
    pub fn flush_pending(&mut self) -> (r: Result<(), Error>)
        ensures
            final(self).reliable() == old(self).reliable(),
            final(self).idle(),
            final(self)@ == final(self).base(),
            match r {
                Ok(_) => final(self)@ == old(self)@,
                Err(_) => !old(self).reliable() && final(self)@ == old(self).base(),
            },
    {
        let ghost ops = self.ops();
        let ghost base = self.base();
        if self.pending.len() == 0 {
            return Ok(());
        }
        let mut puts: OrdMap<Entry> = OrdMap::new();
        let mut deletes: OrdMap<bool> = OrdMap::new();
        let mut i: usize = 0;
        assert(ops.take(0) =~= Seq::empty());
        assert(base.remove_keys(Set::empty()).union_prefer_right(State::empty()) =~= base);
        while i < self.pending.len()
            invariant
                i <= self.pending@.len(),
                ops == views(self.pending@),
                apply_ops(base, ops.take(i as int)) == base.remove_keys(
                    deletes@.dom(),
                ).union_prefer_right(puts@),
                forall|k: Seq<char>| !(puts@.contains_key(k) && #[trigger] deletes@.contains_key(k)),
            decreases self.pending@.len() - i,
        {
            proof {
                assert(ops.take(i + 1).drop_last() =~= ops.take(i as int));
                assert(ops.take(i + 1).last() == self.pending@[i as int]@);
            }
            let ghost p = puts@;
            let ghost d = deletes@;
            match &self.pending[i] {
                PendingOp::Put(k, v) => {
                    puts.insert(k.clone(), v.dup());
                    deletes.remove(k.as_str());
                    assert(base.remove_keys(d.dom()).union_prefer_right(p).insert(k@, v@)
                        =~= base.remove_keys(d.remove(k@).dom()).union_prefer_right(
                        p.insert(k@, v@),
                    ));
                },
                PendingOp::Delete(k) => {
                    puts.remove(k.as_str());
                    deletes.insert(k.clone(), true);
                    assert(base.remove_keys(d.dom()).union_prefer_right(p).remove(k@)
                        =~= base.remove_keys(d.insert(k@, true).dom()).union_prefer_right(
                        p.remove(k@),
                    ));
                },
            }
            i = i + 1;
        }
        assert(ops.take(i as int) =~= ops);
        let puts_list: Vec<(String, Entry)> = rows_of(&puts);
        let deletes_list: Vec<String> = keys_list(&deletes);
        proof {
            lemma_put_listing(
                delete_all(base, views(deletes_list@)),
                puts@,
                row_views(puts_list@),
            );
            let gone = Set::new(|k: Seq<char>| views(deletes_list@).contains(k));
            assert(gone =~= deletes@.dom());
        }
        self.pending = Vec::new();
        self.store.write_batch(&puts_list, &deletes_list)
    }
}

/// The rows of a map of entries.
fn rows_of(m: &OrdMap<Entry>) -> (r: KeyValuePairs)
    ensures
        row_views(r@) == listing(m@),
        is_listing(m@, row_views(r@)),
{
    let n: usize = m.len();
    let ghost all = listing(m@);
    let mut out: KeyValuePairs = Vec::new();
    let mut i: usize = 0;
    assert(row_views(out@) =~= all.take(0));
    while i < n
        invariant
            i <= n == all.len(),
            all == listing(m@),
            row_views(out@) == all.take(i as int),
        decreases n - i,
    {
        let ghost before = row_views(out@);
        out.push((m.key_at(i).clone(), m.value_at(i).dup()));
        assert(row_views(out@) =~= before.push(all[i as int]));
        assert(all.take(i + 1) =~= all.take(i as int).push(all[i as int]));
        i = i + 1;
    }
    assert(all.take(i as int) =~= all);
    out
}

/// The keys of a map, in order.
pub(crate) fn keys_list(m: &OrdMap<bool>) -> (r: Vec<String>)
    ensures
        views(r@) == keys_of(m@),
        forall|k: Seq<char>| #[trigger] views(r@).contains(k) <==> m@.contains_key(k),
{
    let n: usize = m.len();
    let ghost all = keys_of(m@);
    let mut out: Vec<String> = Vec::new();
    let mut i: usize = 0;
    assert(views(out@) =~= all.take(0));
    while i < n
        invariant
            i <= n == all.len(),
            all == keys_of(m@),
            views(out@) == all.take(i as int),
        decreases n - i,
    {
        let ghost before = views(out@);
        out.push(m.key_at(i).clone());
        assert(views(out@) =~= before.push(all[i as int]));
        assert(all.take(i + 1) =~= all.take(i as int).push(all[i as int]));
        i = i + 1;
    }
    proof {
        assert(all.take(i as int) =~= all);
        let rows = listing(m@);
        assert forall|k: Seq<char>| #[trigger] views(out@).contains(k) <==> m@.contains_key(k) by {
            if m@.contains_key(k) {
                assert(has_row(rows, k));
                let j = choose|j: int| 0 <= j < rows.len() && #[trigger] rows[j].0 == k;
                assert(all[j] == k);
            }
            if all.contains(k) {
                let j = all.index_of(k);
                assert(m@.contains_key(rows[j].0));
            }
        }
    }
    out
}

} // verus!
