//! Commands on the shared library and on references to it.
use vstd::prelude::*;
use vstd::string::{StrSliceExecFns, StringExecFns};

use crate::diff::{compute_diff, set_item};
use crate::dup::{Dup, dup_opt, view_opt, views};
use crate::error::{Error, ErrorKind, ErrorView};
use crate::json::shared_json;
use crate::keys::{
    branch_state_key, group_ref_index_key, idx_ref, idx_refg, k_idx_ref, k_idx_refg,
    k_shared_prefix, ref_index_key, ref_key, shared_draft_key, shared_key, shared_prefix,
};
use crate::limits::MAX_VALUE_BYTES;
use crate::model::{
    BranchName, BranchState, Entry, EntryView, EventType, GroupDef, ProjectId, PublishEvent,
    PublishEventView, RefBinding, SharedItem, SharedItemView, SnapshotMap, Structure, Value,
    ValueType, VersionKind, VersionRecord,
};
use crate::ordmap::{has_row, is_listing};
use crate::state::{ApplyOutcome, PendingOp, StateMachine};
use crate::state::drafts::{find_item, next_after, structure_has};
use crate::state::projects::{mark, no_events, no_project, text3};
use crate::state::publishing::find_group;
use crate::step::{branches, fold_steps, lemma_fold_error};
use crate::store::{KeyValuePairs, State, Store, row_views, scan, under};
use crate::text::{same, split, tail_from};
use crate::transition::{
    Progress, applies, cascade, cascade_branch, cascade_group_row, cascade_item_row, mark_of,
    match_at, proceeds, ref_bind, ref_unbind, shared_draft_update, shared_publish, shared_step,
    some_match, target, with_ref, without_ref,
};
use crate::validator::{byte_len, description_too_long, valid_key_name};

verus! {

/// The parts of a key behind a prefix and one more character, where there are `n` of them.
fn target_of(key: &str, prefix: &str, n: usize) -> (r: Option<Vec<String>>)
    ensures
        match r {
            Some(parts) => target(key@, prefix@, n as int) == Some(views(parts@)),
            None => target(key@, prefix@, n as int) is None,
        },
{
    let len: usize = key.unicode_len();
    let skip: usize = prefix.unicode_len();
    if len <= skip {
        return None;
    }
    let rest: &str = tail_from(key, skip + 1);
    let parts: Vec<String> = split(rest, '/');
    assert(views(parts@).len() == parts@.len());
    if parts.len() == n {
        Some(parts)
    } else {
        None
    }
}

/// The key that marks a reference of a project.
fn mark_key(project: &ProjectId, b: &RefBinding) -> (r: String)
    ensures
        r@ == mark_of(project@, b@),
{
    match &b.item_key {
        Some(key) => ref_index_key(
            b.shared_group.as_str(),
            b.shared_key.as_str(),
            project,
            b.group.as_str(),
            key.as_str(),
        ),
        None => group_ref_index_key(b.shared_group.as_str(), project, b.group.as_str()),
    }
}

impl<S: Store> StateMachine<S> {
    pub fn apply_shared_draft_update(&mut self, item: &SharedItem, operator: &str) -> (r: ApplyOutcome)
        ensures
            applies(r, shared_draft_update(old(self)@, item@), final(self)@, old(self).reliable()),
            r is Err ==> final(self)@ == old(self)@,
            final(self).base() == old(self).base(),
            final(self).reliable() == old(self).reliable(),
    {
        proof {
            reveal(shared_draft_update);
        }
        if item.group.as_str().is_empty() || item.key.as_str().is_empty() {
            return Err(Error::validation("shared item group/key required"));
        }
        if !valid_key_name(item.group.as_str()) || !valid_key_name(item.key.as_str()) {
            return Err(Error::validation("shared group/key 须为 1-128 位 [A-Za-z0-9._-]"));
        }
        if item.secret && item.ty != ValueType::Secret {
            return Err(Error::validation("secret 共享项 type 必须为 secret"));
        }
        if !item.secret && item.ty == ValueType::Secret {
            return Err(Error::validation("type=secret 的共享项必须标记 secret=true"));
        }
        if description_too_long(&item.description) {
            return Err(Error::validation("shared item description too long (max 200)"));
        }
        if byte_len(shared_json(item).as_str()) > MAX_VALUE_BYTES {
            return Err(Error::limit_exceeded("shared item too large"));
        }
        self.put_pending(
            shared_draft_key(item.group.as_str(), item.key.as_str()),
            Entry::Shared(item.dup()),
        );
        no_events()
    }

    /// Takes one branch to its next version with one value changed.
    fn advance_value(
        &mut self,
        project: &ProjectId,
        branch: &BranchName,
        group: &str,
        key: &str,
        value: &Value,
        comment: &str,
        request_id: &str,
        now_ms: i64,
        events: &mut Vec<PublishEvent>,
    ) -> (r: Result<(), Error>)
        ensures
            final(self).base() == old(self).base(),
            final(self).reliable() == old(self).reliable(),
            proceeds(
                r,
                cascade_branch(
                    (old(self)@, views(old(events)@)),
                    project@,
                    branch@,
                    group@,
                    key@,
                    value@,
                    comment@,
                    request_id@,
                    now_ms,
                ),
                final(self)@,
                views(final(events)@),
                old(self).reliable(),
            ),
    {
        let mut st: BranchState = match self.get_branch_state(project, branch)? {
            Some(st) => st,
            None => {
                return Err(Error::internal("branch state missing"));
            },
        };
        let old_snap: SnapshotMap = self.active_snapshot(project, branch, st.active_version)?;
        let vno: u64 = next_after(st.active_version)?;
        let mut new_snap: SnapshotMap = old_snap.dup();
        set_item(&mut new_snap, group, key, value.dup());
        let record: VersionRecord = VersionRecord {
            no: vno,
            structure_version: st.structure_version,
            created_at: now_ms,
            operator: "shared".to_owned(),
            comment: comment.to_owned(),
            rollback_of: None,
            kind: VersionKind::Full,
            snapshot_ref: None,
            diff_ref: None,
            event_ty: Some(EventType::SharedCascade),
            gray: false,
        };
        self.write_version_snapshot(project, branch, &old_snap, &new_snap, record);
        let structure_version: u64 = st.structure_version;
        st.active_version = vno;
        self.put_pending(branch_state_key(project, branch), Entry::Branch(st));
        let ghost before = views(events@);
        let event: PublishEvent = PublishEvent {
            project: project.dup(),
            branch: branch.dup(),
            version: vno,
            ty: EventType::SharedCascade,
            structure_version,
            comment: comment.to_owned(),
            request_id: request_id.to_owned(),
            changes: compute_diff(&old_snap, &new_snap),
            gray: false,
        };
        let ghost e = event@;
        events.push(event);
        assert(views(events@) =~= before.push(e));
        Ok(())
    }

    /// Takes all branches of a project to their next version with one value changed.
    fn cascade_to_project(
        &mut self,
        project: &ProjectId,
        group: &str,
        key: &str,
        value: &Value,
        comment: &str,
        request_id: &str,
        now_ms: i64,
        events: &mut Vec<PublishEvent>,
    ) -> (r: Result<(), Error>)
        ensures
            final(self).base() == old(self).base(),
            final(self).reliable() == old(self).reliable(),
            proceeds(
                r,
                cascade(
                    (old(self)@, views(old(events)@)),
                    project@,
                    group@,
                    key@,
                    value@,
                    comment@,
                    request_id@,
                    now_ms,
                ),
                final(self)@,
                views(final(events)@),
                old(self).reliable(),
            ),
    {
        let list: Vec<BranchName> = self.list_branches(project)?;
        let ghost start: Progress = (self@, views(events@));
        let ghost all = branches(self@, project@);
        let ghost f = |p: Progress, b: Seq<char>|
            cascade_branch(p, project@, b, group@, key@, value@, comment@, request_id@, now_ms);
        let mut i: usize = 0;
        assert(all.take(0) =~= Seq::empty());
        while i < list.len()
            invariant
                i <= list@.len(),
                all == views(list@),
                start == (old(self)@, views(old(events)@)),
                self.base() == old(self).base(),
                self.reliable() == old(self).reliable(),
                f == |p: Progress, b: Seq<char>|
                    cascade_branch(
                        p,
                        project@,
                        b,
                        group@,
                        key@,
                        value@,
                        comment@,
                        request_id@,
                        now_ms,
                    ),
                all == branches(start.0, project@),
                fold_steps(all.take(i as int), start, f) == Ok::<Progress, ErrorView>(
                    (self@, views(events@)),
                ),
            decreases list@.len() - i,
        {
            proof {
                assert(all.take(i + 1).drop_last() =~= all.take(i as int));
                assert(all.take(i + 1).last() == list@[i as int]@);
                if fold_steps(all.take(i + 1), start, f) is Err {
                    lemma_fold_error(all, i + 1, start, f);
                }
            }
            self.advance_value(
                project,
                &list[i],
                group,
                key,
                value,
                comment,
                request_id,
                now_ms,
                events,
            )?;
            i = i + 1;
        }
        assert(all.take(i as int) =~= all);
        Ok(())
    }

    /// Follows the references to one shared item.
    fn cascade_items(
        &mut self,
        item: &SharedItem,
        comment: &str,
        request_id: &str,
        now_ms: i64,
        events: &mut Vec<PublishEvent>,
    ) -> (r: Result<(), Error>)
        ensures
            final(self).base() == old(self).base(),
            final(self).reliable() == old(self).reliable(),
            proceeds(
                r,
                fold_steps(
                    scan(old(self)@, k_idx_ref(item@.group, item@.key)),
                    (old(self)@, views(old(events)@)),
                    |p: Progress, row: (Seq<char>, EntryView)|
                        cascade_item_row(p, row, item@, comment@, request_id@, now_ms),
                ),
                final(self)@,
                views(final(events)@),
                old(self).reliable(),
            ),
    {
        let prefix: String = idx_ref(item.group.as_str(), item.key.as_str());
        let rows: KeyValuePairs = self.get_prefix_merged(prefix.as_str())?;
        let ghost all = row_views(rows@);
        let ghost start: Progress = (self@, views(events@));
        let ghost f = |p: Progress, row: (Seq<char>, EntryView)|
            cascade_item_row(p, row, item@, comment@, request_id@, now_ms);
        let mut i: usize = 0;
        assert(all.take(0) =~= Seq::empty());
        while i < rows.len()
            invariant
                i <= rows@.len() == all.len(),
                all == row_views(rows@),
                start == (old(self)@, views(old(events)@)),
                all == scan(start.0, k_idx_ref(item@.group, item@.key)),
                prefix@ == k_idx_ref(item@.group, item@.key),
                self.base() == old(self).base(),
                self.reliable() == old(self).reliable(),
                f == |p: Progress, row: (Seq<char>, EntryView)|
                    cascade_item_row(p, row, item@, comment@, request_id@, now_ms),
                fold_steps(all.take(i as int), start, f) == Ok::<Progress, ErrorView>(
                    (self@, views(events@)),
                ),
            decreases rows@.len() - i,
        {
            proof {
                assert(all.take(i + 1).drop_last() =~= all.take(i as int));
                assert(all.take(i + 1).last() == all[i as int]);
                assert(all[i as int].0 == rows@[i as int].0@);
                if fold_steps(all.take(i + 1), start, f) is Err {
                    lemma_fold_error(all, i + 1, start, f);
                }
            }
            match target_of(rows[i].0.as_str(), prefix.as_str(), 3) {
                Some(parts) => {
                    let ghost seen = views(parts@);
                    assert(seen[0] == parts@[0]@ && seen[1] == parts@[1]@ && seen[2]
                        == parts@[2]@);
                    let project: ProjectId = ProjectId(parts[0].clone());
                    self.cascade_to_project(
                        &project,
                        parts[1].as_str(),
                        parts[2].as_str(),
                        &item.value,
                        comment,
                        request_id,
                        now_ms,
                        events,
                    )?;
                },
                None => {},
            }
            i = i + 1;
        }
        assert(all.take(i as int) =~= all);
        Ok(())
    }

    /// Follows the references to the group of one shared item.
    fn cascade_groups(
        &mut self,
        item: &SharedItem,
        comment: &str,
        request_id: &str,
        now_ms: i64,
        events: &mut Vec<PublishEvent>,
    ) -> (r: Result<(), Error>)
        ensures
            final(self).base() == old(self).base(),
            final(self).reliable() == old(self).reliable(),
            proceeds(
                r,
                fold_steps(
                    scan(old(self)@, k_idx_refg(item@.group)),
                    (old(self)@, views(old(events)@)),
                    |p: Progress, row: (Seq<char>, EntryView)|
                        cascade_group_row(p, row, item@, comment@, request_id@, now_ms),
                ),
                final(self)@,
                views(final(events)@),
                old(self).reliable(),
            ),
    {
        let prefix: String = idx_refg(item.group.as_str());
        let rows: KeyValuePairs = self.get_prefix_merged(prefix.as_str())?;
        let ghost all = row_views(rows@);
        let ghost start: Progress = (self@, views(events@));
        let ghost f = |p: Progress, row: (Seq<char>, EntryView)|
            cascade_group_row(p, row, item@, comment@, request_id@, now_ms);
        let mut i: usize = 0;
        assert(all.take(0) =~= Seq::empty());
        while i < rows.len()
            invariant
                i <= rows@.len() == all.len(),
                all == row_views(rows@),
                start == (old(self)@, views(old(events)@)),
                all == scan(start.0, k_idx_refg(item@.group)),
                prefix@ == k_idx_refg(item@.group),
                self.base() == old(self).base(),
                self.reliable() == old(self).reliable(),
                f == |p: Progress, row: (Seq<char>, EntryView)|
                    cascade_group_row(p, row, item@, comment@, request_id@, now_ms),
                fold_steps(all.take(i as int), start, f) == Ok::<Progress, ErrorView>(
                    (self@, views(events@)),
                ),
            decreases rows@.len() - i,
        {
            proof {
                assert(all.take(i + 1).drop_last() =~= all.take(i as int));
                assert(all.take(i + 1).last() == all[i as int]);
                assert(all[i as int].0 == rows@[i as int].0@);
                if fold_steps(all.take(i + 1), start, f) is Err {
                    lemma_fold_error(all, i + 1, start, f);
                }
            }
            match target_of(rows[i].0.as_str(), prefix.as_str(), 2) {
                Some(parts) => {
                    let ghost seen = views(parts@);
                    assert(seen[0] == parts@[0]@ && seen[1] == parts@[1]@);
                    let project: ProjectId = ProjectId(parts[0].clone());
                    let has: bool = match self.get_structure(&project)? {
                        Some(x) => structure_has(
                            &x.groups,
                            parts[1].as_str(),
                            item.key.as_str(),
                        ),
                        None => false,
                    };
                    if has {
                        self.cascade_to_project(
                            &project,
                            parts[1].as_str(),
                            item.key.as_str(),
                            &item.value,
                            comment,
                            request_id,
                            now_ms,
                            events,
                        )?;
                    }
                },
                None => {},
            }
            i = i + 1;
        }
        assert(all.take(i as int) =~= all);
        Ok(())
    }

    /// Publishes one shared item and advances the branches that refer to it.
    fn publish_shared(
        &mut self,
        item: &SharedItem,
        comment: &str,
        request_id: &str,
        now_ms: i64,
        events: &mut Vec<PublishEvent>,
    ) -> (r: Result<(), Error>)
        ensures
            final(self).base() == old(self).base(),
            final(self).reliable() == old(self).reliable(),
            proceeds(
                r,
                shared_step(
                    (old(self)@, views(old(events)@)),
                    item@,
                    comment@,
                    request_id@,
                    now_ms,
                ),
                final(self)@,
                views(final(events)@),
                old(self).reliable(),
            ),
    {
        let prev: u64 = match self.get_shared(item.group.as_str(), item.key.as_str())? {
            Some(p) => p.version,
            None => 0,
        };
        let version: u64 = next_after(prev)?;
        let published: SharedItem = SharedItem {
            group: item.group.clone(),
            key: item.key.clone(),
            ty: item.ty,
            secret: item.secret,
            required: item.required,
            value: item.value.dup(),
            version,
            description: dup_opt(&item.description),
        };
        self.put_pending(
            shared_key(item.group.as_str(), item.key.as_str()),
            Entry::Shared(published),
        );
        self.delete_pending(shared_draft_key(item.group.as_str(), item.key.as_str()).as_str());
        self.cascade_items(item, comment, request_id, now_ms, events)?;
        self.cascade_groups(item, comment, request_id, now_ms, events)
    }

    pub fn apply_shared_publish(
        &mut self,
        comment: &str,
        request_id: &str,
        now_ms: i64,
        operator: &str,
    ) -> (r: ApplyOutcome)
        ensures
            applies(
                r,
                shared_publish(old(self)@, comment@, request_id@, now_ms),
                final(self)@,
                old(self).reliable(),
            ),
            r is Err ==> final(self)@ == old(self)@,
            final(self).base() == old(self).base(),
            final(self).reliable() == old(self).reliable(),
    {
        proof {
            reveal(shared_publish);
        }
        let drafts: Vec<SharedItem> = self.list_shared_drafts()?;
        if drafts.len() == 0 {
            return Err(Error::new(ErrorKind::NoDraft, "no shared draft"));
        }
        let mut events: Vec<PublishEvent> = Vec::new();
        let ghost s = self@;
        let ghost all = views(drafts@);
        let ghost start: Progress = (s, Seq::<PublishEventView>::empty());
        let ghost f = |a: Progress, item: SharedItemView|
            shared_step(a, item, comment@, request_id@, now_ms);
        let held: Vec<PendingOp> = self.held();
        let mut i: usize = 0;
        assert(all.take(0) =~= Seq::empty());
        assert(views(events@) =~= Seq::empty());
        while i < drafts.len()
            invariant
                i <= drafts@.len(),
                all == views(drafts@),
                views(held@) == old(self).ops(),
                self.base() == old(self).base(),
                self.reliable() == old(self).reliable(),
                f == |a: Progress, item: SharedItemView|
                    shared_step(a, item, comment@, request_id@, now_ms),
                fold_steps(all.take(i as int), start, f) == Ok::<Progress, ErrorView>(
                    (self@, views(events@)),
                ),
                shared_publish(old(self)@, comment@, request_id@, now_ms) == fold_steps(
                    all,
                    start,
                    f,
                ),
            decreases drafts@.len() - i,
        {
            proof {
                assert(all.take(i + 1).drop_last() =~= all.take(i as int));
                assert(all.take(i + 1).last() == drafts@[i as int]@);
                if fold_steps(all.take(i + 1), start, f) is Err {
                    lemma_fold_error(all, i + 1, start, f);
                }
            }
            match self.publish_shared(&drafts[i], comment, request_id, now_ms, &mut events) {
                Ok(_) => {},
                Err(e) => {
                    self.hold(held);
                    return Err(e);
                },
            }
            i = i + 1;
        }
        assert(all.take(i as int) =~= all);
        Ok(events)
    }

    /// Whether a published item of the shared group fits an item of the group of the structure.
    fn fits_some(&self, shared_group: &str, g: &GroupDef) -> (r: Result<bool, Error>)
        ensures
            match r {
                Ok(b) => b == some_match(self@, shared_group@, g@),
                Err(_) => !self.reliable(),
            },
    {
        let prefix: String = shared_prefix(shared_group);
        let rows: KeyValuePairs = self.get_prefix_merged(prefix.as_str())?;
        let ghost all = row_views(rows@);
        let ghost s = self@;
        let mut i: usize = 0;
        while i < rows.len()
            invariant
                i <= rows@.len() == all.len(),
                all == row_views(rows@),
                s == self@,
                is_listing(under(s, prefix@), all),
                prefix@ == k_shared_prefix(shared_group@),
                forall|j: int| 0 <= j < i ==> !match_at((#[trigger] all[j]).1, shared_group@, g@),
            decreases rows@.len() - i,
        {
            assert(all[i as int] == (rows@[i as int].0@, rows@[i as int].1@));
            match &rows[i].1 {
                Entry::Shared(item) => {
                    if same(item.group.as_str(), shared_group) && find_item(
                        &g.items,
                        item.key.as_str(),
                    ).is_some() {
                        proof {
                            let k = all[i as int].0;
                            assert(under(s, prefix@).contains_key(k));
                            assert(s[k] == all[i as int].1);
                            assert(match_at(s[k], shared_group@, g@));
                        }
                        return Ok(true);
                    }
                },
                _ => {},
            }
            i = i + 1;
        }
        proof {
            if some_match(s, shared_group@, g@) {
                let k = choose|k: Seq<char>|
                    s.contains_key(k) && k_shared_prefix(shared_group@).is_prefix_of(k) && match_at(
                        #[trigger] s[k],
                        shared_group@,
                        g@,
                    );
                assert(under(s, prefix@).contains_key(k));
                assert(has_row(all, k));
                let j = choose|j: int| 0 <= j < all.len() && #[trigger] all[j].0 == k;
                assert(all[j].1 == s[k]);
            }
        }
        Ok(false)
    }

    /// Takes a reference and its mark away, if there is one.
    fn drop_ref(&mut self, project: &ProjectId, group: &str, item_key: Option<&str>) -> (r: Result<
        (),
        Error,
    >)
        ensures
            match r {
                Ok(_) => without_ref(old(self)@, project@, group@, view_opt(item_key)) == Ok::<
                    State,
                    ErrorView,
                >(final(self)@),
                Err(e) => final(self)@ == old(self)@ && (!old(self).reliable() || without_ref(
                    old(self)@,
                    project@,
                    group@,
                    view_opt(item_key),
                ) == Err::<State, ErrorView>(e@)),
            },
            final(self).base() == old(self).base(),
            final(self).reliable() == old(self).reliable(),
    {
        let own: String = ref_key(project, group, item_key);
        let binding: Option<RefBinding> = self.load_merged(own.as_str())?;
        match binding {
            Some(b) => {
                self.delete_pending(own.as_str());
                self.delete_pending(mark_key(project, &b).as_str());
            },
            None => {},
        }
        Ok(())
    }

    /// Puts a reference and its mark in the place of the reference that was there.
    fn put_ref(&mut self, project: &ProjectId, binding: &RefBinding) -> (r: ApplyOutcome)
        ensures
            applies(r, with_ref(old(self)@, project@, binding@), final(self)@, old(self).reliable()),
            r is Err ==> final(self)@ == old(self)@,
            final(self).base() == old(self).base(),
            final(self).reliable() == old(self).reliable(),
    {
        let item_key: Option<&str> = match &binding.item_key {
            Some(k) => Some(k.as_str()),
            None => None,
        };
        self.drop_ref(project, binding.group.as_str(), item_key)?;
        self.put_pending(
            ref_key(project, binding.group.as_str(), item_key),
            Entry::Ref(binding.dup()),
        );
        self.put_pending(mark_key(project, binding), mark());
        no_events()
    }

    pub fn apply_ref_bind(&mut self, project: &ProjectId, binding: &RefBinding, operator: &str) -> (r:
        ApplyOutcome)
        ensures
            applies(
                r,
                ref_bind(old(self)@, project@, binding@),
                final(self)@,
                old(self).reliable(),
            ),
            r is Err ==> final(self)@ == old(self)@,
            final(self).base() == old(self).base(),
            final(self).reliable() == old(self).reliable(),
    {
        proof {
            reveal(ref_bind);
        }
        let group: &str = binding.group.as_str();
        let shared_group: &str = binding.shared_group.as_str();
        let shared: &str = binding.shared_key.as_str();
        if !valid_key_name(shared_group) || !valid_key_name(shared) {
            return Err(Error::validation("shared group/key 须为 1-128 位 [A-Za-z0-9._-]"));
        }
        let structure: Structure = match self.get_structure(project)? {
            Some(x) => x,
            None => {
                return Err(no_project(project));
            },
        };
        let g: &GroupDef = match find_group(&structure.groups, group) {
            Some(g) => g,
            None => {
                return Err(
                    Error::validation(text3("group ", group, " not in project structure").as_str()),
                );
            },
        };
        match &binding.item_key {
            Some(item_key) => {
                let key: &str = item_key.as_str();
                if find_item(&g.items, key).is_none() {
                    let mut m: String = text3("item ", group, "/");
                    m.append(key);
                    m.append(" not in project structure");
                    return Err(Error::validation(m.as_str()));
                }
                if self.get_shared(shared_group, shared)?.is_none() {
                    let mut m: String = text3("shared item ", shared_group, "/");
                    m.append(shared);
                    m.append(" not published");
                    return Err(Error::validation(m.as_str()));
                }
                self.put_ref(project, binding)
            },
            None => {
                if !self.fits_some(shared_group, g)? {
                    let mut m: String = text3(
                        "shared group ",
                        shared_group,
                        " has no published item matching structure group ",
                    );
                    m.append(group);
                    return Err(Error::validation(m.as_str()));
                }
                self.put_ref(project, binding)
            },
        }
    }

    pub fn apply_ref_unbind(
        &mut self,
        project: &ProjectId,
        group: &str,
        item_key: Option<&str>,
        operator: &str,
    ) -> (r: ApplyOutcome)
        ensures
            applies(
                r,
                ref_unbind(old(self)@, project@, group@, view_opt(item_key)),
                final(self)@,
                old(self).reliable(),
            ),
            r is Err ==> final(self)@ == old(self)@,
            final(self).base() == old(self).base(),
            final(self).reliable() == old(self).reliable(),
    {
        proof {
            reveal(ref_unbind);
        }
        self.drop_ref(project, group, item_key)?;
        no_events()
    }
}

} // verus!
