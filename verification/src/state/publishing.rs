//! Publishing and rolling back.
use vstd::prelude::*;
use vstd::string::StringExecFns;

use crate::diff::{compute_diff, set_item};
use crate::dup::{Dup, views};
use crate::error::{Error, ErrorKind, ErrorView};
use crate::keys::branch_state_key;
use crate::model::{
    BranchName, BranchState, DraftValue, DraftValueView, Entry, EventType, GroupDef, GroupDefView,
    ItemDef, ItemDefView, ProjectId, PublishEvent, RefBinding, RefBindingView, SnapView,
    SnapshotMap, Structure, Value, ValueView, VersionKind, VersionRecord,
};
use crate::ordmap::{OrdMap, Recast};
use crate::state::{ApplyOutcome, StateMachine};
use crate::state::drafts::{blocked, next_after, operator_id};
use crate::state::projects::{no_events, no_project, text3};
use crate::state::versions::branch_missing;
use crate::step::{fold_steps, gives, lemma_fold_error, refs};
use crate::store::Store;
use crate::text::{decimal, same};
use crate::transition::{
    applies, draft_values, fill_from_shared, group_index, materialised, publish, resolve_ref,
    rollback,
};
use crate::validator::validate_publish;

verus! {

/// Draft values lose their time.
pub(crate) struct ToValues {}

impl Recast<DraftValue, Value> for ToValues {
    open spec fn recast_of(&self, v: DraftValueView) -> ValueView {
        v.value
    }

    fn recast(&self, v: &DraftValue) -> (u: Value) {
        v.value.dup()
    }
}

impl Recast<OrdMap<DraftValue>, OrdMap<Value>> for ToValues {
    open spec fn recast_of(&self, v: Map<Seq<char>, DraftValueView>) -> Map<Seq<char>, ValueView> {
        v.map_values(|d: DraftValueView| d.value)
    }

    fn recast(&self, v: &OrdMap<DraftValue>) -> (u: OrdMap<Value>) {
        let u: OrdMap<Value> = v.map_values(self);
        assert(u@ =~= v@.map_values(|d: DraftValueView| d.value));
        u
    }
}

/// The values of a draft.
fn values_of(draft: &OrdMap<OrdMap<DraftValue>>) -> (r: SnapshotMap)
    ensures
        r@ == draft_values(draft@),
{
    let f: ToValues = ToValues {};
    let r: SnapshotMap = draft.map_values(&f);
    assert(r@ =~= draft_values(draft@));
    r
}

/// The first group with the name.
pub(crate) fn find_group<'a>(groups: &'a Vec<GroupDef>, name: &str) -> (r: Option<&'a GroupDef>)
    ensures
        match r {
            Some(g) => group_index(views(groups@), name@) < groups@.len() && g@ == views(
                groups@,
            )[group_index(views(groups@), name@)],
            None => group_index(views(groups@), name@) >= groups@.len(),
        },
{
    let ghost all = views(groups@);
    let mut i: usize = 0;
    assert(all.take(0) =~= Seq::empty());
    while i < groups.len()
        invariant
            i <= groups@.len(),
            all == views(groups@),
            group_index(all.take(i as int), name@) == i,
        decreases groups@.len() - i,
    {
        proof {
            assert(all.take(i + 1).drop_last() =~= all.take(i as int));
            assert(all.take(i + 1).last() == groups@[i as int]@);
        }
        if same(groups[i].name.as_str(), name) {
            proof {
                lemma_group_index(all, i + 1, name@);
            }
            return Some(&groups[i]);
        }
        i = i + 1;
    }
    assert(all.take(i as int) =~= all);
    None
}

/// A group found among the first ones is the group found among all.
proof fn lemma_group_index(groups: Seq<GroupDefView>, n: int, name: Seq<char>)
    requires
        0 <= n <= groups.len(),
        group_index(groups.take(n), name) < n,
    ensures
        group_index(groups, name) == group_index(groups.take(n), name),
        group_index(groups, name) >= 0,
    decreases groups.len() - n,
{
    if n < groups.len() {
        assert(groups.take(n + 1).drop_last() =~= groups.take(n));
        lemma_group_index(groups, n + 1, name);
    } else {
        assert(groups.take(n) =~= groups);
        lemma_group_index_low(groups, name);
    }
}

proof fn lemma_group_index_low(groups: Seq<GroupDefView>, name: Seq<char>)
    ensures
        group_index(groups, name) >= 0,
    decreases groups.len(),
{
    if groups.len() > 0 {
        lemma_group_index_low(groups.drop_last(), name);
    }
}

impl<S: Store> StateMachine<S> {
    /// Puts a shared value where the configuration has none of its own.
    fn fill_shared(
        &self,
        m: &mut SnapshotMap,
        group: &str,
        key: &str,
        shared_group: &str,
        shared_key: &str,
    ) -> (r: Result<(), Error>)
        ensures
            ({
                let want = fill_from_shared(
                    self@,
                    old(m)@,
                    group@,
                    key@,
                    shared_group@,
                    shared_key@,
                );
                match r {
                    Ok(_) => want == Ok::<SnapView, ErrorView>(final(m)@),
                    Err(e) => !self.reliable() || want == Err::<SnapView, ErrorView>(e@),
                }
            }),
    {
        let there: bool = match m.get(group) {
            Some(inner) => inner.contains_key(key),
            None => false,
        };
        if !there {
            match self.get_shared(shared_group, shared_key)? {
                Some(shared) => set_item(m, group, key, shared.value),
                None => {},
            }
        }
        Ok(())
    }

    /// Brings in what one reference refers to.
    fn resolve(&self, m: &mut SnapshotMap, groups: &Vec<GroupDef>, b: &RefBinding) -> (r: Result<
        (),
        Error,
    >)
        ensures
            ({
                let want = resolve_ref(self@, views(groups@), old(m)@, b@);
                match r {
                    Ok(_) => want == Ok::<SnapView, ErrorView>(final(m)@),
                    Err(e) => !self.reliable() || want == Err::<SnapView, ErrorView>(e@),
                }
            }),
    {
        match &b.item_key {
            Some(key) => self.fill_shared(
                m,
                b.group.as_str(),
                key.as_str(),
                b.shared_group.as_str(),
                b.shared_key.as_str(),
            ),
            None => {
                let g: &GroupDef = match find_group(groups, b.group.as_str()) {
                    Some(g) => g,
                    None => {
                        return Ok(());
                    },
                };
                let ghost all = g@.items;
                let ghost start = m@;
                let ghost f = |a: SnapView, item: ItemDefView|
                    fill_from_shared(self@, a, b@.group, item.key, b@.shared_group, item.key);
                let mut i: usize = 0;
                assert(all.take(0) =~= Seq::empty());
                while i < g.items.len()
                    invariant
                        i <= g.items@.len(),
                        all == views(g.items@),
                        start == old(m)@,
                        f == |a: SnapView, item: ItemDefView|
                            fill_from_shared(
                                self@,
                                a,
                                b@.group,
                                item.key,
                                b@.shared_group,
                                item.key,
                            ),
                        fold_steps(all.take(i as int), start, f) == Ok::<SnapView, ErrorView>(m@),
                        resolve_ref(self@, views(groups@), start, b@) == fold_steps(all, start, f),
                    decreases g.items@.len() - i,
                {
                    let item: &ItemDef = &g.items[i];
                    proof {
                        assert(all.take(i + 1).drop_last() =~= all.take(i as int));
                        assert(all.take(i + 1).last() == item@);
                        if fold_steps(all.take(i + 1), start, f) is Err {
                            lemma_fold_error(all, i + 1, start, f);
                        }
                    }
                    self.fill_shared(
                        m,
                        b.group.as_str(),
                        item.key.as_str(),
                        b.shared_group.as_str(),
                        item.key.as_str(),
                    )?;
                    i = i + 1;
                }
                assert(all.take(i as int) =~= all);
                Ok(())
            },
        }
    }

    /// The configuration that a draft makes: its values, and shared values where it has none.
    fn materialise(
        &self,
        id: &ProjectId,
        groups: &Vec<GroupDef>,
        draft: &OrdMap<OrdMap<DraftValue>>,
    ) -> (r: Result<SnapshotMap, Error>)
        ensures
            gives(
                r,
                materialised(self@, id@, views(groups@), draft@),
                self.reliable(),
            ),
    {
        let mut m: SnapshotMap = values_of(draft);
        let list: Vec<RefBinding> = self.list_refs(id)?;
        let ghost all = refs(self@, id@);
        let ghost start = m@;
        let ghost f = |a: SnapView, b: RefBindingView| resolve_ref(self@, views(groups@), a, b);
        let mut i: usize = 0;
        assert(all.take(0) =~= Seq::empty());
        while i < list.len()
            invariant
                i <= list@.len(),
                all == views(list@),
                f == |a: SnapView, b: RefBindingView| resolve_ref(self@, views(groups@), a, b),
                fold_steps(all.take(i as int), start, f) == Ok::<SnapView, ErrorView>(m@),
                materialised(self@, id@, views(groups@), draft@) == fold_steps(all, start, f),
            decreases list@.len() - i,
        {
            proof {
                assert(all.take(i + 1).drop_last() =~= all.take(i as int));
                assert(all.take(i + 1).last() == list@[i as int]@);
                if fold_steps(all.take(i + 1), start, f) is Err {
                    lemma_fold_error(all, i + 1, start, f);
                }
            }
            self.resolve(&mut m, groups, &list[i])?;
            i = i + 1;
        }
        assert(all.take(i as int) =~= all);
        Ok(m)
    }

    pub fn apply_publish(
        &mut self,
        id: &ProjectId,
        branch: &BranchName,
        comment: &str,
        request_id: &str,
        now_ms: i64,
        operator: &str,
    ) -> (r: ApplyOutcome)
        ensures
            applies(
                r,
                publish(old(self)@, id@, branch@, comment@, request_id@, now_ms, operator@),
                final(self)@,
                old(self).reliable(),
            ),
            r is Err ==> final(self)@ == old(self)@,
            final(self).base() == old(self).base(),
            final(self).reliable() == old(self).reliable(),
    {
        proof {
            reveal(publish);
        }
        let mut st: BranchState = match self.get_branch_state(id, branch)? {
            Some(st) => st,
            None => {
                return Err(branch_missing(id, branch));
            },
        };
        let structure: Structure = match self.get_structure(id)? {
            Some(x) => x,
            None => {
                return Err(no_project(id));
            },
        };
        if answered(&st, request_id) {
            return no_events();
        }
        if st.value_draft.is_empty() {
            return Err(Error::new(ErrorKind::NoDraft, "no pending draft"));
        }
        let errs: Vec<String> = validate_publish(&st.value_draft, &structure);
        if errs.len() > 0 {
            return Err(blocked(errs));
        }
        let new_snap: SnapshotMap = self.materialise(id, &structure.groups, &st.value_draft)?;
        let old_snap: SnapshotMap = self.active_snapshot(id, branch, st.active_version)?;
        let vno: u64 = next_after(st.active_version)?;
        let record: VersionRecord = VersionRecord {
            no: vno,
            structure_version: structure.version,
            created_at: now_ms,
            operator: operator_id(operator),
            comment: comment.to_owned(),
            rollback_of: None,
            kind: VersionKind::Full,
            snapshot_ref: None,
            diff_ref: None,
            event_ty: Some(EventType::ValuePublish),
            gray: false,
        };
        self.write_version_snapshot(id, branch, &old_snap, &new_snap, record);
        st.active_version = vno;
        st.last_request_id = Some(request_id.to_owned());
        st.value_draft = OrdMap::new();
        self.put_pending(branch_state_key(id, branch), Entry::Branch(st));
        let event: PublishEvent = PublishEvent {
            project: id.dup(),
            branch: branch.dup(),
            version: vno,
            ty: EventType::ValuePublish,
            structure_version: structure.version,
            comment: comment.to_owned(),
            request_id: request_id.to_owned(),
            changes: compute_diff(&old_snap, &new_snap),
            gray: false,
        };
        Ok(one_event(event))
    }

    pub fn apply_rollback(
        &mut self,
        project: &ProjectId,
        branch: &BranchName,
        to_version: u64,
        comment: &str,
        request_id: &str,
        now_ms: i64,
        operator: &str,
    ) -> (r: ApplyOutcome)
        ensures
            applies(
                r,
                rollback(
                    old(self)@,
                    project@,
                    branch@,
                    to_version,
                    comment@,
                    request_id@,
                    now_ms,
                    operator@,
                ),
                final(self)@,
                old(self).reliable(),
            ),
            r is Err ==> final(self)@ == old(self)@,
            final(self).base() == old(self).base(),
            final(self).reliable() == old(self).reliable(),
    {
        proof {
            reveal(rollback);
        }
        let mut st: BranchState = match self.get_branch_state(project, branch)? {
            Some(st) => st,
            None => {
                return Err(branch_missing(project, branch));
            },
        };
        if answered(&st, request_id) {
            return no_events();
        }
        if to_version == 0 || to_version >= st.active_version {
            let mut m: String = text3(
                "to_version ",
                decimal(to_version).as_str(),
                " must be 0 < v < active ",
            );
            m.append(decimal(st.active_version).as_str());
            return Err(Error::validation(m.as_str()));
        }
        let new_snap: SnapshotMap = self.snapshot_of(project, branch, to_version)?;
        let old_snap: SnapshotMap = self.snapshot_of(project, branch, st.active_version)?;
        let vno: u64 = next_after(st.active_version)?;
        let record: VersionRecord = VersionRecord {
            no: vno,
            structure_version: st.structure_version,
            created_at: now_ms,
            operator: operator_id(operator),
            comment: comment.to_owned(),
            rollback_of: Some(to_version),
            kind: VersionKind::Full,
            snapshot_ref: None,
            diff_ref: None,
            event_ty: Some(EventType::Rollback),
            gray: false,
        };
        self.write_version_snapshot(project, branch, &old_snap, &new_snap, record);
        let structure_version: u64 = st.structure_version;
        st.active_version = vno;
        st.last_request_id = Some(request_id.to_owned());
        self.put_pending(branch_state_key(project, branch), Entry::Branch(st));
        let event: PublishEvent = PublishEvent {
            project: project.dup(),
            branch: branch.dup(),
            version: vno,
            ty: EventType::Rollback,
            structure_version,
            comment: comment.to_owned(),
            request_id: request_id.to_owned(),
            changes: compute_diff(&old_snap, &new_snap),
            gray: false,
        };
        Ok(one_event(event))
    }
}

/// Whether the branch answered the request last.
fn answered(st: &BranchState, request_id: &str) -> (r: bool)
    ensures
        r == (st@.last_request_id == Some(request_id@)),
{
    match &st.last_request_id {
        Some(last) => same(last.as_str(), request_id),
        None => false,
    }
}

fn one_event(e: PublishEvent) -> (r: Vec<PublishEvent>)
    ensures
        views(r@) == seq![e@],
{
    let ghost v = e@;
    let mut r: Vec<PublishEvent> = Vec::new();
    r.push(e);
    assert(views(r@) =~= seq![v]);
    r
}

} // verus!
