//! Branches, the audit trail and the content of versions.
use vstd::prelude::*;
use vstd::string::StringExecFns;

use crate::diff::apply_in_place;
use crate::dup::{Dup, view_opt, views};
use crate::error::{Error, ErrorView, not_found_err};
use crate::gather::gather;
use crate::keys::{K_AUDIT, branches_prefix, diff_key, k_branches_prefix, k_snapshot, snapshot_key};
use crate::limits::CHECKPOINT_INTERVAL;
use crate::model::{AuditEntry, BranchName, BranchState, Entry, ProjectId, SnapView, SnapshotMap};
use crate::ordmap::{OrdMap, has_row, is_listing};
use crate::sort::sort;
use crate::state::{StateMachine, keys_list};
use crate::step::{
    ConfigView, DiffLog, active_content, audit, base_of, branch_map, branches, config, finds,
    gives, has_branch, lists, read_as, rebuild, row_audit, snapshot,
};
use crate::store::{KeyValuePairs, State, Store, row_views, under};
use crate::text::{after_prefix, decimal, lemma_split_once, parse_number, same, split_once};

verus! {

/// A configuration as it is read.
#[derive(Debug, PartialEq)]
pub struct ConfigSnapshot {
    pub project: String,
    pub branch: String,
    pub version: u64,
    pub structure_version: u64,
    pub groups: SnapshotMap,
}

impl View for ConfigSnapshot {
    type V = ConfigView;

    open spec fn view(&self) -> ConfigView {
        ConfigView {
            project: self.project@,
            branch: self.branch@,
            version: self.version,
            structure_version: self.structure_version,
            groups: self.groups@,
        }
    }
}

/// What stands between the prefix of a project's branches and the next `/` names a branch.
proof fn lemma_branch_of_key(s: State, id: Seq<char>, k: Seq<char>, n: Seq<char>, t: Seq<char>)
    requires
        s.contains_key(k),
        k == k_branches_prefix(id) + (n + seq!['/'] + t),
        !n.contains('/'),
        n.len() > 0,
    ensures
        has_branch(s, id, n),
{
    reveal_strlit("/");
    let p = k_branches_prefix(id) + n + "/"@;
    assert("/"@ =~= seq!['/']);
    assert(p =~= k.subrange(0, p.len() as int));
}

impl<S: Store> StateMachine<S> {
    /// The names of the branches of a project, in ascending order.
    pub fn list_branches(&self, id: &ProjectId) -> (r: Result<Vec<BranchName>, Error>)
        ensures
            lists(r, branches(self@, id@), self.reliable()),
    {
        let prefix: String = branches_prefix(id);
        let rows: KeyValuePairs = self.get_prefix_merged(prefix.as_str())?;
        let ghost all = row_views(rows@);
        let ghost s = self@;
        let mut names: OrdMap<bool> = OrdMap::new();
        let mut i: usize = 0;
        while i < rows.len()
            invariant
                i <= rows@.len(),
                s == self@,
                prefix@ == k_branches_prefix(id@),
                all == row_views(rows@),
                is_listing(under(s, prefix@), all),
                forall|n: Seq<char>| #[trigger] names@.contains_key(n) ==> has_branch(s, id@, n) && names@[n],
                forall|j: int, n: Seq<char>, t: Seq<char>|
                    0 <= j < i && n.len() > 0 && !n.contains('/') && (#[trigger] all[j]).0 == prefix@ + (
                    #[trigger] (n + seq!['/'] + t)) ==> names@.contains_key(n),
            decreases rows@.len() - i,
        {
            let ghost was = names@;
            let key: &str = rows[i].0.as_str();
            proof {
                assert(all[i as int].0 == key@);
                assert(under(s, prefix@).contains_key(all[i as int].0));
            }
            match after_prefix(key, prefix.as_str()) {
                Some(rest) => {
                    proof {
                        assert(key@ =~= prefix@ + rest@);
                    }
                    match split_once(rest, '/') {
                        Some((name, tail)) => {
                            if !name.is_empty() {
                                proof {
                                    lemma_branch_of_key(s, id@, key@, name@, tail@);
                                }
                                names.insert(name.to_owned(), true);
                            }
                            assert forall|n: Seq<char>, t: Seq<char>|
                                n.len() > 0 && !n.contains('/') && all[i as int].0 == prefix@ + (
                                #[trigger] (n + seq!['/'] + t)) implies names@.contains_key(n) by {
                                assert((prefix@ + (n + seq!['/'] + t)).skip(prefix@.len() as int) =~= n
                                    + seq!['/'] + t);
                                lemma_split_once(name@, tail@, n, t, '/');
                            }
                        },
                        None => {
                            assert forall|n: Seq<char>, t: Seq<char>|
                                n.len() > 0 && !n.contains('/') && all[i as int].0 == prefix@ + (
                                #[trigger] (n + seq!['/'] + t)) implies names@.contains_key(n) by {
                                assert((prefix@ + (n + seq!['/'] + t)).skip(prefix@.len() as int) =~= n
                                    + seq!['/'] + t);
                                assert(rest@[n.len() as int] == '/');
                            }
                        },
                    }
                },
                None => {},
            }
            assert forall|n: Seq<char>| was.contains_key(n) implies #[trigger] names@.contains_key(n) by {}
            i = i + 1;
        }
        proof {
            assert forall|n: Seq<char>| names@.contains_key(n) == has_branch(s, id@, n) by {
                if has_branch(s, id@, n) {
                    let p = k_branches_prefix(id@) + n + "/"@;
                    let k = choose|k: Seq<char>| s.contains_key(k) && p.is_prefix_of(k);
                    reveal_strlit("/");
                    assert("/"@ =~= seq!['/']);
                    let t = k.skip(p.len() as int);
                    assert(k =~= p + t);
                    assert(k =~= prefix@ + (n + seq!['/'] + t));
                    assert(prefix@ =~= k.subrange(0, prefix@.len() as int));
                    assert(under(s, prefix@).contains_key(k));
                    assert(has_row(all, k));
                    let j = choose|j: int| 0 <= j < all.len() && #[trigger] all[j].0 == k;
                    assert(all[j].0 == prefix@ + (n + seq!['/'] + t));
                }
            }
            assert(names@ =~= branch_map(s, id@));
        }
        let list: Vec<String> = keys_list(&names);
        let mut out: Vec<BranchName> = Vec::new();
        let mut i: usize = 0;
        while i < list.len()
            invariant
                i <= list@.len(),
                i == out@.len(),
                forall|j: int| 0 <= j < i ==> (#[trigger] out@[j])@ == list@[j]@,
            decreases list@.len() - i,
        {
            out.push(BranchName(list[i].clone()));
            i = i + 1;
        }
        assert(views(out@) =~= views(list@));
        Ok(out)
    }

    /// The entries of the audit trail that pass the filters, the newest first, at most `limit`.
    pub fn get_audit(
        &self,
        action: Option<&str>,
        project: Option<&str>,
        since: Option<i64>,
        limit: usize,
    ) -> (r: Result<Vec<AuditEntry>, Error>)
        ensures
            lists(
                r,
                audit(self@, view_opt(action), view_opt(project), since, limit as nat),
                self.reliable(),
            ),
    {
        let rows: KeyValuePairs = self.get_prefix_merged(K_AUDIT)?;
        let ghost all = row_views(rows@);
        let ghost f = |i: int| row_audit(all[i], view_opt(action), view_opt(project), since);
        let mut out: Vec<AuditEntry> = Vec::new();
        let mut i: usize = 0;
        assert(views(out@) =~= gather(0, f));
        while i < rows.len()
            invariant
                i <= rows@.len() == all.len(),
                all == row_views(rows@),
                f == |i: int| row_audit(all[i], view_opt(action), view_opt(project), since),
                forall|j: int| 0 <= j < all.len() ==> K_AUDIT@.is_prefix_of((#[trigger] all[j]).0),
                views(out@) == gather(i as nat, f),
            decreases rows@.len() - i,
        {
            assert(all[i as int] == (rows@[i as int].0@, rows@[i as int].1@));
            assert(gather((i + 1) as nat, f) == gather(i as nat, f) + f(i as int));
            let numbered: bool = match after_prefix(rows[i].0.as_str(), K_AUDIT) {
                Some(rest) => parse_number(rest, u64::MAX).is_some(),
                None => false,
            };
            if numbered {
                match &rows[i].1 {
                    Entry::Audit(e) => {
                        let by_action: bool = match action {
                            Some(a) => same(e.action.as_str(), a),
                            None => true,
                        };
                        let by_project: bool = match project {
                            Some(p) => match &e.project {
                                Some(q) => same(q.as_str(), p),
                                None => false,
                            },
                            None => true,
                        };
                        let by_time: bool = match since {
                            Some(t) => e.ts >= t,
                            None => true,
                        };
                        if by_action && by_project && by_time {
                            out.push(e.dup());
                        }
                    },
                    _ => {},
                }
            }
            assert(views(out@) =~= gather((i + 1) as nat, f));
            i = i + 1;
        }
        let mut out: Vec<AuditEntry> = sort(out);
        let ghost sorted_all = views(out@);
        if out.len() > limit {
            out.truncate(limit);
            assert(views(out@) =~= sorted_all.take(limit as int));
        }
        Ok(out)
    }

    /// All entries.
    pub fn dump_all(&self) -> (r: Result<KeyValuePairs, Error>)
        ensures
            match r {
                Ok(rows) => is_listing(self@, row_views(rows@)),
                Err(_) => !self.reliable(),
            },
    {
        let rows: KeyValuePairs = self.get_prefix_merged("")?;
        proof {
            reveal_strlit("");
            assert(""@ =~= Seq::empty());
            assert forall|k: Seq<char>| ""@.is_prefix_of(k) by {
                assert(k.subrange(0, 0) =~= Seq::empty());
            }
            assert(under(self@, ""@) =~= self@);
        }
        Ok(rows)
    }

    fn stored_snapshot(&self, id: &ProjectId, branch: &BranchName, v: u64) -> (r: Result<
        Option<SnapshotMap>,
        Error,
    >)
        ensures
            finds(
                r,
                read_as::<SnapshotMap>(self@, k_snapshot(id@, branch@, v), "corrupt snapshot "@),
                self.reliable(),
            ),
    {
        self.load_as(snapshot_key(id, branch, v).as_str(), "corrupt snapshot ")
    }

    /// The content of a version, rebuilt from its checkpoint; nothing where a link is missing.
    fn rebuilt(&self, id: &ProjectId, branch: &BranchName, start: u64, version: u64) -> (r: Result<
        Option<SnapshotMap>,
        Error,
    >)
        requires
            start <= version,
        ensures
            finds(
                r,
                rebuild(self@, id@, branch@, start as int, version as int),
                self.reliable(),
            ),
    {
        proof {
            if !(rebuild(self@, id@, branch@, start as int, start as int) matches Ok(Some(_))) {
                lemma_rebuild_stops(
                    self@,
                    id@,
                    branch@,
                    start as int,
                    start as int,
                    version as int,
                );
            }
        }
        let mut snap: SnapshotMap = match self.stored_snapshot(id, branch, start)? {
            Some(m) => m,
            None => {
                return Ok(None);
            },
        };
        let mut v: u64 = start;
        while v < version
            invariant
                start <= v <= version,
                rebuild(self@, id@, branch@, start as int, v as int) == Ok::<
                    Option<SnapView>,
                    ErrorView,
                >(Some(snap@)),
            decreases version - v,
        {
            let next: u64 = v + 1;
            let log: Result<Option<DiffLog>, Error> = self.load_as(
                diff_key(id, branch, next).as_str(),
                "corrupt diff ",
            );
            match log {
                Ok(Some(d)) => {
                    apply_in_place(&mut snap, &d.entries);
                },
                Ok(None) => {
                    proof {
                        lemma_rebuild_stops(
                            self@,
                            id@,
                            branch@,
                            start as int,
                            next as int,
                            version as int,
                        );
                    }
                    return Ok(None);
                },
                Err(e) => {
                    proof {
                        if self.reliable() {
                            lemma_rebuild_stops(
                                self@,
                                id@,
                                branch@,
                                start as int,
                                next as int,
                                version as int,
                            );
                        }
                    }
                    return Err(e);
                },
            }
            v = next;
        }
        Ok(Some(snap))
    }

    /// The content of a version.
    pub fn snapshot_of(&self, id: &ProjectId, branch: &BranchName, version: u64) -> (r: Result<
        SnapshotMap,
        Error,
    >)
        ensures
            gives(r, snapshot(self@, id@, branch@, version), self.reliable()),
    {
        if version == 0 {
            let mut m: String = "version 0 of ".to_owned();
            m.append(branch.as_str());
            return Err(Error::not_found(m.as_str()));
        }
        let start: u64 = if version % CHECKPOINT_INTERVAL == 0 {
            version
        } else if version < CHECKPOINT_INTERVAL {
            1
        } else {
            version - version % CHECKPOINT_INTERVAL
        };
        assert(start == base_of(version as int));
        match self.rebuilt(id, branch, start, version)? {
            Some(m) => {
                return Ok(m);
            },
            None => {},
        }
        match self.stored_snapshot(id, branch, version)? {
            Some(m) => Ok(m),
            None => {
                let mut m: String = "version ".to_owned();
                m.append(decimal(version).as_str());
                m.append(" of ");
                m.append(branch.as_str());
                Err(Error::not_found(m.as_str()))
            },
        }
    }

    /// The content of the active version; nothing before the first publish.
    pub(crate) fn active_snapshot(&self, id: &ProjectId, branch: &BranchName, version: u64) -> (r: Result<
        SnapshotMap,
        Error,
    >)
        ensures
            gives(r, active_content(self@, id@, branch@, version), self.reliable()),
    {
        if version == 0 {
            Ok(OrdMap::new())
        } else {
            self.snapshot_of(id, branch, version)
        }
    }

    /// The configuration of a branch at `version`, or, for 0, at its active version.
    pub fn get_config(&self, id: &ProjectId, branch: &BranchName, version: u64) -> (r: Result<
        ConfigSnapshot,
        Error,
    >)
        ensures
            gives(r, config(self@, id@, branch@, version), self.reliable()),
    {
        let st: BranchState = match self.get_branch_state(id, branch)? {
            Some(st) => st,
            None => {
                return Err(branch_missing(id, branch));
            },
        };
        let vno: u64 = if version == 0 {
            st.active_version
        } else {
            version
        };
        if vno == 0 {
            return Err(Error::not_found("no published version yet"));
        }
        let groups: SnapshotMap = self.snapshot_of(id, branch, vno)?;
        let structure_version: u64 = match self.get_structure(id)? {
            Some(x) => x.version,
            None => 0,
        };
        Ok(
            ConfigSnapshot {
                project: id.0.clone(),
                branch: branch.0.clone(),
                version: vno,
                structure_version,
                groups,
            },
        )
    }
}

/// The branch is not there.
pub(crate) fn branch_missing(id: &ProjectId, branch: &BranchName) -> (r: Error)
    ensures
        r@ == not_found_err("branch "@ + branch@ + " of "@ + id@),
{
    let mut m: String = "branch ".to_owned();
    m.append(branch.as_str());
    m.append(" of ");
    m.append(id.as_str());
    Error::not_found(m.as_str())
}

/// A chain that breaks stays broken.
proof fn lemma_rebuild_stops(
    s: State,
    id: Seq<char>,
    branch: Seq<char>,
    start: int,
    v: int,
    w: int,
)
    requires
        start <= v <= w,
        !(rebuild(s, id, branch, start, v) matches Ok(Some(_))),
    ensures
        rebuild(s, id, branch, start, w) == rebuild(s, id, branch, start, v),
    decreases w - v,
{
    if v < w {
        lemma_rebuild_stops(s, id, branch, start, v, w - 1);
    }
}

} // verus!
