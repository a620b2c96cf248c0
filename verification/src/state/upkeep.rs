//! Pruning and restoring.
use vstd::prelude::*;
use vstd::string::StringExecFns;

use crate::dup::{Dup, views};
use crate::error::{Error, ErrorView};
use crate::gather::gather;
use crate::keys::{K_AUDIT, audit_key, diff_key, k_audit, snapshot_key, version_key};
use crate::limits::CHECKPOINT_INTERVAL;
use crate::model::{BranchName, BranchState, Entry, ProjectId, VersionRecord};
use crate::ordmap::has_row;
use crate::sort::sort;
use crate::state::StateMachine;
use crate::state::projects::{add_keys, push_key, text2};
use crate::step::{base_of, history};
use crate::store::{KeyValuePairs, State, Store, put_all, row_views};
use crate::text::{after_prefix, parse_number};
use crate::transition::{
    audit_excess, audit_numbers, audit_pruned, pruned_key, records_gone, row_number, version_owns,
    versions_pruned,
};

verus! {

impl<S: Store> StateMachine<S> {
    /// Replaces everything by `pairs`.
    pub fn restore_all(&mut self, pairs: &Vec<(String, Entry)>) -> (r: Result<(), Error>)
        ensures
            final(self).reliable() == old(self).reliable(),
            final(self).base() == final(self)@,
            final(self).idle(),
            match r {
                Ok(_) => final(self)@ == put_all(State::empty(), row_views(pairs@)),
                Err(_) => !old(self).reliable() && final(self)@ == old(self).base(),
            },
    {
        let rows: KeyValuePairs = match self.dump_all() {
            Ok(rows) => rows,
            Err(e) => {
                self.abort_pending();
                return Err(e);
            },
        };
        let ghost s = self@;
        let mut keys: Vec<String> = Vec::new();
        add_keys(&mut keys, &rows);
        self.delete_each(&keys);
        proof {
            assert forall|k: Seq<char>| !self@.contains_key(k) by {
                if s.contains_key(k) {
                    assert(has_row(row_views(rows@), k));
                    assert(views(keys@).contains(k));
                }
            }
            assert(self@ =~= State::empty());
        }
        let ghost all = row_views(pairs@);
        let mut i: usize = 0;
        assert(all.take(0) =~= Seq::empty());
        while i < pairs.len()
            invariant
                i <= pairs@.len(),
                all == row_views(pairs@),
                self@ == put_all(State::empty(), all.take(i as int)),
                self.base() == old(self).base(),
                self.reliable() == old(self).reliable(),
            decreases pairs@.len() - i,
        {
            assert(all.take(i + 1).drop_last() =~= all.take(i as int));
            self.put_pending(pairs[i].0.clone(), pairs[i].1.dup());
            i = i + 1;
        }
        assert(all.take(i as int) =~= all);
        self.flush_pending()
    }

    /// The numbers of the audit trail, in ascending order.
    fn audit_list(&self) -> (r: Result<Vec<u64>, Error>)
        ensures
            match r {
                Ok(v) => v@ == audit_numbers(self@),
                Err(_) => !self.reliable(),
            },
    {
        let rows: KeyValuePairs = self.get_prefix_merged(K_AUDIT)?;
        let ghost all = row_views(rows@);
        let ghost f = |i: int| row_number(all[i]);
        let mut out: Vec<u64> = Vec::new();
        let mut i: usize = 0;
        assert(out@ =~= gather(0, f));
        while i < rows.len()
            invariant
                i <= rows@.len() == all.len(),
                all == row_views(rows@),
                f == |i: int| row_number(all[i]),
                forall|j: int| 0 <= j < all.len() ==> K_AUDIT@.is_prefix_of((#[trigger] all[j]).0),
                out@ == gather(i as nat, f),
            decreases rows@.len() - i,
        {
            assert(all[i as int] == (rows@[i as int].0@, rows@[i as int].1@));
            assert(gather((i + 1) as nat, f) == gather(i as nat, f) + f(i as int));
            match after_prefix(rows[i].0.as_str(), K_AUDIT) {
                Some(rest) => match parse_number(rest, u64::MAX) {
                    Some(n) => out.push(n),
                    None => {},
                },
                None => {},
            }
            assert(out@ =~= gather((i + 1) as nat, f));
            i = i + 1;
        }
        assert(views(out@) =~= out@);
        let sorted_out: Vec<u64> = sort(out);
        assert(views(sorted_out@) =~= sorted_out@);
        Ok(sorted_out)
    }

    /// Keeps the newest `keep` entries of the audit trail; the result counts those that went.
    pub fn prune_audit(&mut self, keep: usize) -> (r: Result<usize, Error>)
        ensures
            final(self).reliable() == old(self).reliable(),
            final(self).base() == final(self)@,
            final(self).idle(),
            match r {
                Ok(n) => n == audit_excess(old(self)@, keep as nat) && final(self)@ == audit_pruned(
                    old(self)@,
                    keep as nat,
                ),
                Err(_) => !old(self).reliable() && final(self)@ == old(self).base(),
            },
    {
        let numbers: Vec<u64> = match self.audit_list() {
            Ok(v) => v,
            Err(e) => {
                self.abort_pending();
                return Err(e);
            },
        };
        let ghost s = self@;
        let ghost excess = audit_excess(s, keep as nat);
        let ghost doomed = Seq::new(excess, |i: int| k_audit(audit_numbers(s)[i]));
        let n: usize = if numbers.len() > keep {
            numbers.len() - keep
        } else {
            0
        };
        let mut keys: Vec<String> = Vec::new();
        let mut i: usize = 0;
        while i < n
            invariant
                i <= n == excess,
                n <= numbers@.len(),
                numbers@ == audit_numbers(s),
                doomed == Seq::new(excess, |i: int| k_audit(audit_numbers(s)[i])),
                i == keys@.len(),
                forall|j: int| 0 <= j < i ==> (#[trigger] keys@[j])@ == doomed[j],
            decreases n - i,
        {
            keys.push(audit_key(numbers[i]));
            i = i + 1;
        }
        assert(views(keys@) =~= doomed);
        self.delete_each(&keys);
        match self.flush_pending() {
            Ok(_) => Ok(n),
            Err(e) => Err(e),
        }
    }

    /// Keeps the active version, the last `keep` versions and the checkpoint that they are rebuilt from;
    /// the result counts the records that went.
    pub fn prune_versions(&mut self, project: &ProjectId, branch: &BranchName, keep: usize) -> (r: Result<
        usize,
        Error,
    >)
        ensures
            final(self).reliable() == old(self).reliable(),
            final(self).base() == final(self)@,
            final(self).idle(),
            ({
                let want = versions_pruned(old(self)@, project@, branch@, keep as nat);
                match r {
                    Ok(n) => want == Ok::<(State, nat), ErrorView>((final(self)@, n as nat)),
                    Err(e) => (!old(self).reliable() || want == Err::<(State, nat), ErrorView>(e@))
                        && final(self)@ == old(self).base(),
                }
            }),
    {
        match self.prune_pending(project, branch, keep) {
            Ok(n) => match self.flush_pending() {
                Ok(_) => Ok(n),
                Err(e) => Err(e),
            },
            Err(e) => {
                self.abort_pending();
                Err(e)
            },
        }
    }

    fn prune_pending(&mut self, project: &ProjectId, branch: &BranchName, keep: usize) -> (r: Result<
        usize,
        Error,
    >)
        ensures
            final(self).reliable() == old(self).reliable(),
            final(self).base() == old(self).base(),
            ({
                let want = versions_pruned(old(self)@, project@, branch@, keep as nat);
                match r {
                    Ok(n) => want == Ok::<(State, nat), ErrorView>((final(self)@, n as nat)),
                    Err(e) => !old(self).reliable() || want == Err::<(State, nat), ErrorView>(e@),
                }
            }),
    {
        let st: BranchState = match self.get_branch_state(project, branch)? {
            Some(st) => st,
            None => {
                return Err(Error::not_found(text2("branch ", branch.as_str()).as_str()));
            },
        };
        let records: Vec<VersionRecord> = self.version_history(project, branch)?;
        let ghost s = self@;
        let ghost hist = history(s, project@, branch@);
        let total: usize = records.len();
        if total <= keep {
            return Ok(0);
        }
        let newest: u64 = records[total - keep - 1].no;
        assert(hist[total - keep - 1] == records@[total - keep - 1]@);
        let active: u64 = st.active_version;
        let from: u64 = if newest % CHECKPOINT_INTERVAL == 0 {
            newest
        } else if newest < CHECKPOINT_INTERVAL {
            1
        } else {
            newest - newest % CHECKPOINT_INTERVAL
        };
        assert(from == base_of(newest as int));
        let mut keys: Vec<String> = Vec::new();
        let mut gone: usize = 0;
        let mut i: usize = 0;
        assert(hist.take(0) =~= Seq::empty());
        while i < total
            invariant
                i <= total == records@.len(),
                gone <= i,
                from == base_of(newest as int),
                hist == views(records@),
                gone == records_gone(hist.take(i as int), newest, active),
                forall|k: Seq<char>| #[trigger]
                    views(keys@).contains(k) <==> exists|j: int|
                        0 <= j < i && version_owns(
                            project@,
                            branch@,
                            (#[trigger] hist[j]).no,
                            newest,
                            active,
                            k,
                        ),
            decreases total - i,
        {
            let ghost before = views(keys@);
            let no: u64 = records[i].no;
            proof {
                assert(hist[i as int].no == no);
                assert(hist.take(i + 1).drop_last() =~= hist.take(i as int));
                assert(hist.take(i + 1).last() == hist[i as int]);
            }
            if no <= newest && no != active && no != from {
                push_key(&mut keys, version_key(project, branch, no));
                gone = gone + 1;
            }
            if no < from && no != active {
                push_key(&mut keys, snapshot_key(project, branch, no));
                push_key(&mut keys, diff_key(project, branch, no));
            }
            proof {
                assert forall|k: Seq<char>| #[trigger] views(keys@).contains(k) <==> exists|j: int|
                    0 <= j < i + 1 && version_owns(
                        project@,
                        branch@,
                        (#[trigger] hist[j]).no,
                        newest,
                        active,
                        k,
                    ) by {
                    if before.contains(k) {
                        let j = choose|j: int|
                            0 <= j < i && version_owns(
                                project@,
                                branch@,
                                (#[trigger] hist[j]).no,
                                newest,
                                active,
                                k,
                            );
                        assert(version_owns(project@, branch@, hist[j].no, newest, active, k));
                    }
                    if version_owns(project@, branch@, hist[i as int].no, newest, active, k) {
                        assert(views(keys@).contains(k));
                    }
                }
            }
            i = i + 1;
        }
        assert(hist.take(i as int) =~= hist);
        self.delete_each(&keys);
        proof {
            let doomed = Set::new(
                |k: Seq<char>| pruned_key(project@, branch@, hist, newest, active, k),
            );
            assert(self@ =~= s.remove_keys(doomed));
        }
        Ok(gone)
    }
}

} // verus!
