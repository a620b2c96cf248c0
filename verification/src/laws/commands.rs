//! What each command does to a sound state.
use vstd::prelude::*;

use crate::command::DraftUpdateItemView;
use crate::diff::{finite_snap, put_item, same_items};
use crate::error::ErrorView;
use crate::keys::{
    K_SHARED_DRAFT, k_branch_state, k_idx_ref, k_idx_refg, k_project, k_shared, k_shared_draft,
    k_struct, k_struct_draft,
};
use crate::laws::paths::{
    in_project, is_part, lemma_branch_keys, lemma_outside_keys, lemma_struct_parts, parts,
};
use crate::laws::sound::{
    all_placed, branch_at, finite_draft, in_place, is_struct_key, lemma_put_finite,
    lemma_snapshot_finite, same_at, same_version, sound,
};
use crate::laws::steps::{
    lemma_branch_names, lemma_fold_keeps, lemma_outside, lemma_same_branches, lemma_struct_names,
    lemma_structure_key,
};
use crate::laws::versions::{keeps, lemma_extended, lemma_extended_frame, lemma_keeps_transitive};
use crate::model::{
    BranchStateView, EntryView, EventType, GroupDefView, ItemDefView, RefBindingView, SharedItem,
    SharedItemView, SnapView, Structure, StructureDraft, StructureView, ValueView, VersionKind,
    VersionRecordView,
};
use crate::step::{active_content, branches, fold_steps, read, refs, shared_under, snapshot};
use crate::store::{State, scan};
use crate::text::lemma_split_single;
use crate::transition::{
    Progress, after_deletes, after_updates, branch_missing_err, cascade, cascade_branch,
    cascade_group_row, cascade_item_row, done, draft_from, draft_values, fill_from_shared,
    group_index, has_item, kept_draft, materialised, next_number, operator_of, publish,
    publish_structure, resolve_ref, rollback, shared_publish, shared_step, structure_step, target,
};
use crate::validator::DraftView;

verus! {

// ---------------------------------------------------------------------------------------------
// Drafts and contents are finite
// ---------------------------------------------------------------------------------------------

pub proof fn lemma_updates_finite(m: DraftView, updates: Seq<DraftUpdateItemView>, ts: i64)
    requires
        finite_draft(m),
    ensures
        finite_draft(after_updates(m, updates, ts)),
    decreases updates.len(),
{
    if updates.len() > 0 {
        lemma_updates_finite(m, updates.drop_last(), ts);
        let d = after_updates(m, updates.drop_last(), ts);
        let r = after_updates(m, updates, ts);
        assert forall|g: Seq<char>| #[trigger] r.contains_key(g) implies r[g].dom().finite() by {
            if g != updates.last().group {
                assert(d.contains_key(g));
            }
        }
    }
}

pub proof fn lemma_deletes_finite(m: DraftView, deletes: Seq<(Seq<char>, Seq<char>)>)
    requires
        finite_draft(m),
    ensures
        finite_draft(after_deletes(m, deletes)),
    decreases deletes.len(),
{
    if deletes.len() > 0 {
        lemma_deletes_finite(m, deletes.drop_last());
        let d = after_deletes(m, deletes.drop_last());
        let r = after_deletes(m, deletes);
        assert forall|g: Seq<char>| #[trigger] r.contains_key(g) implies r[g].dom().finite() by {
            assert(d.contains_key(g));
        }
    }
}

pub proof fn lemma_kept_draft_finite(draft: DraftView, groups: Seq<GroupDefView>)
    requires
        finite_draft(draft),
    ensures
        finite_draft(kept_draft(draft, groups)),
{
    let r = kept_draft(draft, groups);
    assert(r.dom().subset_of(draft.dom()));
    vstd::set_lib::lemma_set_subset_finite(draft.dom(), r.dom());
    assert forall|g: Seq<char>| #[trigger] r.contains_key(g) implies r[g].dom().finite() by {
        assert(draft.contains_key(g));
        assert(r[g].dom().subset_of(draft[g].dom()));
        vstd::set_lib::lemma_set_subset_finite(draft[g].dom(), r[g].dom());
    }
}

pub proof fn lemma_draft_from_finite(m: SnapView, ts: i64)
    requires
        finite_snap(m),
    ensures
        finite_draft(draft_from(m, ts)),
{
    let r = draft_from(m, ts);
    assert(r.dom() =~= m.dom());
    assert forall|g: Seq<char>| #[trigger] r.contains_key(g) implies r[g].dom().finite() by {
        assert(m.contains_key(g));
        assert(r[g].dom() =~= m[g].dom());
    }
}

proof fn lemma_draft_values_finite(m: DraftView)
    requires
        finite_draft(m),
    ensures
        finite_snap(draft_values(m)),
{
    let r = draft_values(m);
    assert(r.dom() =~= m.dom());
    assert forall|g: Seq<char>| #[trigger] r.contains_key(g) implies r[g].dom().finite() by {
        assert(m.contains_key(g));
        assert(r[g].dom() =~= m[g].dom());
    }
}

proof fn lemma_resolve_finite(
    s: State,
    groups: Seq<GroupDefView>,
    m: SnapView,
    b: RefBindingView,
)
    requires
        finite_snap(m),
        resolve_ref(s, groups, m, b) is Ok,
    ensures
        finite_snap(resolve_ref(s, groups, m, b)->Ok_0),
{
    match b.item_key {
        Some(key) => {
            lemma_fill_finite(s, m, b.group, key, b.shared_group, b.shared_key);
        },
        None => {
            if group_index(groups, b.group) < groups.len() {
                let f = |a: SnapView, item: ItemDefView|
                    fill_from_shared(s, a, b.group, item.key, b.shared_group, item.key);
                assert forall|a: SnapView, item: ItemDefView|
                    finite_snap(a) && (#[trigger] f(a, item)) is Ok implies finite_snap(
                    f(a, item)->Ok_0,
                ) by {
                    lemma_fill_finite(s, a, b.group, item.key, b.shared_group, item.key);
                }
                lemma_fold_keeps(
                    groups[group_index(groups, b.group)].items,
                    m,
                    f,
                    |a: SnapView| finite_snap(a),
                );
            }
        },
    }
}

proof fn lemma_fill_finite(
    s: State,
    m: SnapView,
    group: Seq<char>,
    key: Seq<char>,
    shared_group: Seq<char>,
    shared_key: Seq<char>,
)
    requires
        finite_snap(m),
    ensures
        fill_from_shared(s, m, group, key, shared_group, shared_key) matches Ok(r) ==> finite_snap(r),
{
    match read::<SharedItem>(s, k_shared(shared_group, shared_key)) {
        Ok(Some(shared)) => {
            lemma_put_finite(m, group, key, shared.value);
        },
        _ => {},
    }
}

/// What a draft makes is finite.
pub proof fn lemma_materialised_finite(
    s: State,
    id: Seq<char>,
    groups: Seq<GroupDefView>,
    draft: DraftView,
)
    requires
        finite_draft(draft),
        materialised(s, id, groups, draft) is Ok,
    ensures
        finite_snap(materialised(s, id, groups, draft)->Ok_0),
{
    lemma_draft_values_finite(draft);
    let f = |m: SnapView, b: RefBindingView| resolve_ref(s, groups, m, b);
    assert forall|m: SnapView, b: RefBindingView| finite_snap(m) && (#[trigger] f(m, b)) is Ok implies finite_snap(
        f(m, b)->Ok_0,
    ) by {
        lemma_resolve_finite(s, groups, m, b);
    }
    lemma_fold_keeps(refs(s, id), draft_values(draft), f, |m: SnapView| finite_snap(m));
}

pub proof fn lemma_active_content_finite(s: State, id: Seq<char>, branch: Seq<char>, v: u64)
    requires
        all_placed(s),
        active_content(s, id, branch, v) is Ok,
    ensures
        finite_snap(active_content(s, id, branch, v)->Ok_0),
{
    if v > 0 {
        lemma_snapshot_finite(s, id, branch, v);
    }
}

// ---------------------------------------------------------------------------------------------
// Publishing
// ---------------------------------------------------------------------------------------------

/// The configuration that a publish of the branch makes.
pub open spec fn to_publish(s: State, id: Seq<char>, branch: Seq<char>) -> Result<
    SnapView,
    ErrorView,
> {
    match (branch_at(s, id, branch), read::<Structure>(s, k_struct(id))) {
        (Some(st), Ok(Some(structure))) => materialised(s, id, structure.groups, st.value_draft),
        _ => Err(branch_missing_err(id, branch)),
    }
}

/// A publish makes the next version of the branch, which reads as the draft made it, and empties the
/// draft. Nothing that was published before changes.
pub proof fn law_publish_is_read_back(
    s: State,
    id: Seq<char>,
    branch: Seq<char>,
    comment: Seq<char>,
    request_id: Seq<char>,
    ts: i64,
    operator: Seq<char>,
)
    requires
        sound(s),
        publish(s, id, branch, comment, request_id, ts, operator) is Ok,
    ensures
        ({
            let (t, events) = publish(s, id, branch, comment, request_id, ts, operator)->Ok_0;
            let before = branch_at(s, id, branch)->0;
            let after = branch_at(t, id, branch)->0;
            &&& sound(t)
            &&& keeps(s, t)
            &&& branch_at(s, id, branch) is Some
            &&& branch_at(t, id, branch) is Some
            &&& after.last_request_id == Some(request_id)
            &&& before.last_request_id != Some(request_id) ==> {
                &&& after.active_version == before.active_version + 1
                &&& after.value_draft == DraftView::empty()
                &&& to_publish(s, id, branch) matches Ok(new) && (snapshot(
                    t,
                    id,
                    branch,
                    after.active_version,
                ) matches Ok(m) && same_items(m, new))
                &&& events.len() == 1 && events[0].version == after.active_version
            }
        }),
{
    reveal(publish);
    let st = branch_at(s, id, branch)->0;
    assert(branch_at(s, id, branch) is Some);
    lemma_branch_names(s, id, branch);
    if st.last_request_id != Some(request_id) {
        let structure = read::<Structure>(s, k_struct(id))->Ok_0->0;
        let new = materialised(s, id, structure.groups, st.value_draft)->Ok_0;
        let old = active_content(s, id, branch, st.active_version)->Ok_0;
        lemma_materialised_finite(s, id, structure.groups, st.value_draft);
        let vno = (st.active_version + 1) as u64;
        let record = VersionRecordView {
            no: vno,
            structure_version: structure.version,
            created_at: ts,
            operator: operator_of(operator),
            comment,
            rollback_of: None,
            kind: VersionKind::Full,
            snapshot_ref: None,
            diff_ref: None,
            event_ty: Some(EventType::ValuePublish),
            gray: false,
        };
        let next = BranchStateView {
            active_version: vno,
            last_request_id: Some(request_id),
            value_draft: Map::empty(),
            ..st
        };
        assert(finite_draft(next.value_draft));
        lemma_extended(s, id, branch, old, new, record, next);
    } else {
        lemma_keeps_reflexive(s);
    }
}

pub proof fn lemma_keeps_reflexive(s: State)
    ensures
        keeps(s, s),
{
}

/// A request that was answered is not carried out again: a second publish with its id changes nothing
/// and gives no events.
pub proof fn law_publish_is_idempotent(
    s: State,
    id: Seq<char>,
    branch: Seq<char>,
    comment: Seq<char>,
    request_id: Seq<char>,
    ts: i64,
    operator: Seq<char>,
    again: Seq<char>,
    later: i64,
    other: Seq<char>,
)
    requires
        sound(s),
        publish(s, id, branch, comment, request_id, ts, operator) is Ok,
    ensures
        ({
            let t = publish(s, id, branch, comment, request_id, ts, operator)->Ok_0.0;
            publish(t, id, branch, again, request_id, later, other) == done(t)
        }),
{
    law_publish_is_read_back(s, id, branch, comment, request_id, ts, operator);
    reveal(publish);
    let t = publish(s, id, branch, comment, request_id, ts, operator)->Ok_0.0;
    lemma_branch_names(s, id, branch);
    let st = branch_at(s, id, branch)->0;
    if st.last_request_id != Some(request_id) {
        let vno = (st.active_version + 1) as u64;
        lemma_branch_keys(id, branch, vno);
        lemma_struct_parts(id);
        lemma_split_single(id, '/');
        assert(parts(k_struct(id)).len() == 3);
        assert(same_at(s, t, k_struct(id)));
    }
}

/// A rollback makes a new version with the items of an earlier one. Nothing that was published before
/// changes, and the draft stays.
pub proof fn law_rollback_restores(
    s: State,
    id: Seq<char>,
    branch: Seq<char>,
    to_version: u64,
    comment: Seq<char>,
    request_id: Seq<char>,
    ts: i64,
    operator: Seq<char>,
)
    requires
        sound(s),
        rollback(s, id, branch, to_version, comment, request_id, ts, operator) is Ok,
    ensures
        ({
            let (t, events) = rollback(
                s,
                id,
                branch,
                to_version,
                comment,
                request_id,
                ts,
                operator,
            )->Ok_0;
            let before = branch_at(s, id, branch)->0;
            let after = branch_at(t, id, branch)->0;
            &&& sound(t)
            &&& keeps(s, t)
            &&& branch_at(s, id, branch) is Some
            &&& branch_at(t, id, branch) is Some
            &&& after.last_request_id == Some(request_id)
            &&& after.value_draft == before.value_draft
            &&& before.last_request_id != Some(request_id) ==> {
                &&& after.active_version == before.active_version + 1
                &&& snapshot(s, id, branch, to_version) matches Ok(new) && (snapshot(
                    t,
                    id,
                    branch,
                    after.active_version,
                ) matches Ok(m) && same_items(m, new))
                &&& events.len() == 1 && events[0].version == after.active_version
            }
        }),
{
    reveal(rollback);
    let st = branch_at(s, id, branch)->0;
    assert(branch_at(s, id, branch) is Some);
    lemma_branch_names(s, id, branch);
    if st.last_request_id != Some(request_id) {
        let new = snapshot(s, id, branch, to_version)->Ok_0;
        let old = snapshot(s, id, branch, st.active_version)->Ok_0;
        lemma_snapshot_finite(s, id, branch, to_version);
        let vno = (st.active_version + 1) as u64;
        let record = VersionRecordView {
            no: vno,
            structure_version: st.structure_version,
            created_at: ts,
            operator: operator_of(operator),
            comment,
            rollback_of: Some(to_version),
            kind: VersionKind::Full,
            snapshot_ref: None,
            diff_ref: None,
            event_ty: Some(EventType::Rollback),
            gray: false,
        };
        let next = BranchStateView {
            active_version: vno,
            last_request_id: Some(request_id),
            ..st
        };
        lemma_extended(s, id, branch, old, new, record, next);
    }
}

// ---------------------------------------------------------------------------------------------
// Structures
// ---------------------------------------------------------------------------------------------

/// One step of publishing a structure.
pub proof fn lemma_structure_step(
    a: Progress,
    id: Seq<char>,
    branch: Seq<char>,
    structure: StructureView,
    comment: Seq<char>,
    request_id: Seq<char>,
    ts: i64,
    operator: Seq<char>,
)
    requires
        sound(a.0),
        structure_step(a, id, branch, structure, comment, request_id, ts, operator) is Ok,
    ensures
        ({
            let t = structure_step(
                a,
                id,
                branch,
                structure,
                comment,
                request_id,
                ts,
                operator,
            )->Ok_0.0;
            let before = branch_at(a.0, id, branch)->0;
            let after = branch_at(t, id, branch)->0;
            &&& sound(t)
            &&& keeps(a.0, t)
            &&& is_part(id) && is_part(branch)
            &&& branch_at(a.0, id, branch) is Some
            &&& branch_at(t, id, branch) is Some
            &&& after.active_version == before.active_version + 1
            &&& after.structure_version == structure.version
            &&& after.value_draft == kept_draft(before.value_draft, structure.groups)
            &&& active_content(a.0, id, branch, before.active_version) matches Ok(old) && (snapshot(
                t,
                id,
                branch,
                after.active_version,
            ) matches Ok(m) && same_items(m, old))
            &&& forall|b: Seq<char>| is_part(b) && b != branch ==> same_at(
                a.0,
                t,
                #[trigger] k_branch_state(id, b),
            )
            &&& forall|b: Seq<char>, n: u64| is_part(b) && b != branch ==> #[trigger] same_version(
                a.0,
                t,
                id,
                b,
                n,
            )
        }),
{
    let s = a.0;
    let st = branch_at(s, id, branch)->0;
    assert(branch_at(s, id, branch) is Some);
    lemma_branch_names(s, id, branch);
    let values = active_content(s, id, branch, st.active_version)->Ok_0;
    lemma_active_content_finite(s, id, branch, st.active_version);
    lemma_kept_draft_finite(st.value_draft, structure.groups);
    let vno = (st.active_version + 1) as u64;
    let record = VersionRecordView {
        no: vno,
        structure_version: structure.version,
        created_at: ts,
        operator: operator_of(operator),
        comment,
        rollback_of: None,
        kind: VersionKind::Full,
        snapshot_ref: None,
        diff_ref: None,
        event_ty: Some(EventType::StructurePublish),
        gray: false,
    };
    let next = BranchStateView {
        active_version: vno,
        structure_version: structure.version,
        value_draft: kept_draft(st.value_draft, structure.groups),
        ..st
    };
    lemma_extended(s, id, branch, values, values, record, next);
    lemma_extended_frame(s, id, branch, values, values, record, next);
}

pub proof fn lemma_publish_structure(
    s: State,
    id: Seq<char>,
    comment: Seq<char>,
    request_id: Seq<char>,
    ts: i64,
    operator: Seq<char>,
)
    requires
        sound(s),
        publish_structure(s, id, comment, request_id, ts, operator) is Ok,
    ensures
        sound(publish_structure(s, id, comment, request_id, ts, operator)->Ok_0.0),
        keeps(s, publish_structure(s, id, comment, request_id, ts, operator)->Ok_0.0),
{
    reveal(publish_structure);
    let structure = read::<Structure>(s, k_struct(id))->Ok_0->0;
    let draft = read::<StructureDraft>(s, k_struct_draft(id))->Ok_0->0;
    let new = StructureView { version: (structure.version + 1) as u64, groups: draft.groups };
    let f = |a: Progress, b: Seq<char>|
        structure_step(a, id, b, new, comment, request_id, ts, operator);
    let p = |a: Progress| sound(a.0) && keeps(s, a.0);
    let start: Progress = (s, Seq::empty());
    assert forall|a: Progress, b: Seq<char>| p(a) && (#[trigger] f(a, b)) is Ok implies p(
        f(a, b)->Ok_0,
    ) by {
        lemma_structure_step(a, id, b, new, comment, request_id, ts, operator);
        lemma_keeps_transitive(s, a.0, f(a, b)->Ok_0.0);
    }
    lemma_keeps_reflexive(s);
    assert(p(start));
    lemma_fold_keeps(branches(s, id), start, f, p);
    let a = fold_steps(branches(s, id), start, f)->Ok_0;
    assert(p(a));
    let t = a.0.insert(k_struct(id), EntryView::Structure(new)).remove(k_struct_draft(id));
    lemma_struct_names(s, id);
    lemma_structure_key(a.0, t, id);
    assert(is_struct_key(k_struct(id)));
    assert forall|k: Seq<char>| #[trigger] t.contains_key(k) implies in_place(k, t[k]) by {
        if k != k_struct(id) {
            assert(a.0.contains_key(k));
        }
    }
    lemma_same_branches(a.0, t);
    lemma_keeps_transitive(s, a.0, t);
}

// ---------------------------------------------------------------------------------------------
// The shared library
// ---------------------------------------------------------------------------------------------

/// One branch that follows a shared item: its next version has the item, and all else as before.
pub proof fn lemma_cascade_branch(
    a: Progress,
    id: Seq<char>,
    branch: Seq<char>,
    group: Seq<char>,
    key: Seq<char>,
    value: ValueView,
    comment: Seq<char>,
    request_id: Seq<char>,
    ts: i64,
)
    requires
        sound(a.0),
        cascade_branch(a, id, branch, group, key, value, comment, request_id, ts) is Ok,
    ensures
        ({
            let t = cascade_branch(a, id, branch, group, key, value, comment, request_id, ts)->Ok_0.0;
            let before = branch_at(a.0, id, branch)->0;
            let after = branch_at(t, id, branch)->0;
            &&& sound(t)
            &&& keeps(a.0, t)
            &&& branch_at(a.0, id, branch) is Some
            &&& branch_at(t, id, branch) is Some
            &&& after.active_version == before.active_version + 1
            &&& after.value_draft == before.value_draft
            &&& active_content(a.0, id, branch, before.active_version) matches Ok(old) && (snapshot(
                t,
                id,
                branch,
                after.active_version,
            ) matches Ok(m) && same_items(m, put_item(old, group, key, value)))
            &&& forall|i: Seq<char>, b: Seq<char>|
                is_part(i) && is_part(b) && !(i == id && b == branch) ==> same_at(
                    a.0,
                    t,
                    #[trigger] k_branch_state(i, b),
                )
            &&& forall|i: Seq<char>, b: Seq<char>, n: u64|
                is_part(i) && is_part(b) && !(i == id && b == branch) ==> #[trigger] same_version(
                    a.0,
                    t,
                    i,
                    b,
                    n,
                )
        }),
{
    let s = a.0;
    let st = branch_at(s, id, branch)->0;
    assert(branch_at(s, id, branch) is Some);
    lemma_branch_names(s, id, branch);
    let old = active_content(s, id, branch, st.active_version)->Ok_0;
    lemma_active_content_finite(s, id, branch, st.active_version);
    lemma_put_finite(old, group, key, value);
    let vno = (st.active_version + 1) as u64;
    let record = VersionRecordView {
        no: vno,
        structure_version: st.structure_version,
        created_at: ts,
        operator: "shared"@,
        comment,
        rollback_of: None,
        kind: VersionKind::Full,
        snapshot_ref: None,
        diff_ref: None,
        event_ty: Some(EventType::SharedCascade),
        gray: false,
    };
    let next = BranchStateView { active_version: vno, ..st };
    lemma_extended(s, id, branch, old, put_item(old, group, key, value), record, next);
    lemma_extended_frame(s, id, branch, old, put_item(old, group, key, value), record, next);
}

proof fn lemma_cascade(
    s: State,
    a: Progress,
    id: Seq<char>,
    group: Seq<char>,
    key: Seq<char>,
    value: ValueView,
    comment: Seq<char>,
    request_id: Seq<char>,
    ts: i64,
)
    requires
        sound(a.0),
        keeps(s, a.0),
        cascade(a, id, group, key, value, comment, request_id, ts) is Ok,
    ensures
        sound(cascade(a, id, group, key, value, comment, request_id, ts)->Ok_0.0),
        keeps(s, cascade(a, id, group, key, value, comment, request_id, ts)->Ok_0.0),
{
    let f = |p: Progress, b: Seq<char>|
        cascade_branch(p, id, b, group, key, value, comment, request_id, ts);
    let p = |p: Progress| sound(p.0) && keeps(s, p.0);
    assert forall|x: Progress, b: Seq<char>| p(x) && (#[trigger] f(x, b)) is Ok implies p(
        f(x, b)->Ok_0,
    ) by {
        lemma_cascade_branch(x, id, b, group, key, value, comment, request_id, ts);
        lemma_keeps_transitive(s, x.0, f(x, b)->Ok_0.0);
    }
    lemma_fold_keeps(branches(a.0, id), a, f, p);
}

proof fn lemma_shared_step(
    s: State,
    a: Progress,
    item: SharedItemView,
    comment: Seq<char>,
    request_id: Seq<char>,
    ts: i64,
)
    requires
        sound(a.0),
        keeps(s, a.0),
        shared_step(a, item, comment, request_id, ts) is Ok,
    ensures
        sound(shared_step(a, item, comment, request_id, ts)->Ok_0.0),
        keeps(s, shared_step(a, item, comment, request_id, ts)->Ok_0.0),
{
    let prev = read::<SharedItem>(a.0, k_shared(item.group, item.key))->Ok_0;
    let version = next_number(
        match prev {
            Some(p) => p.version,
            None => 0,
        },
    )->Ok_0;
    let e = EntryView::Shared(SharedItemView { version, ..item });
    let t = a.0.insert(k_shared(item.group, item.key), e).remove(
        k_shared_draft(item.group, item.key),
    );
    lemma_outside_keys(item.group, item.key, item.key, item.key, item.key, 0);
    assert forall|k: Seq<char>| in_project(k) implies #[trigger] same_at(a.0, t, k) by {}
    lemma_outside(a.0, t);
    assert forall|k: Seq<char>| #[trigger] t.contains_key(k) implies in_place(k, t[k]) by {
        if k != k_shared(item.group, item.key) {
            assert(a.0.contains_key(k));
        }
    }
    assert forall|i: Seq<char>| is_part(i) && a.0.contains_key(#[trigger] k_project(i)) implies t.contains_key(
        k_project(i),
    ) by {
        assert(same_at(a.0, t, k_project(i)));
    }
    lemma_same_branches(a.0, t);
    lemma_keeps_transitive(s, a.0, t);
    let p = |p: Progress| sound(p.0) && keeps(s, p.0);
    let f = |p: Progress, row: (Seq<char>, EntryView)|
        cascade_item_row(p, row, item, comment, request_id, ts);
    let start: Progress = (t, a.1);
    assert forall|x: Progress, row: (Seq<char>, EntryView)| p(x) && (#[trigger] f(x, row)) is Ok implies p(
        f(x, row)->Ok_0,
    ) by {
        match target(row.0, k_idx_ref(item.group, item.key), 3) {
            Some(q) => {
                lemma_cascade(s, x, q[0], q[1], q[2], item.value, comment, request_id, ts);
            },
            None => {},
        }
    }
    assert(p(start));
    lemma_fold_keeps(scan(t, k_idx_ref(item.group, item.key)), start, f, p);
    let b = fold_steps(scan(t, k_idx_ref(item.group, item.key)), start, f)->Ok_0;
    let g = |p: Progress, row: (Seq<char>, EntryView)|
        cascade_group_row(p, row, item, comment, request_id, ts);
    assert forall|x: Progress, row: (Seq<char>, EntryView)| p(x) && (#[trigger] g(x, row)) is Ok implies p(
        g(x, row)->Ok_0,
    ) by {
        match target(row.0, k_idx_refg(item.group), 2) {
            Some(q) => {
                let structure = read::<Structure>(x.0, k_struct(q[0]))->Ok_0;
                if structure is Some && has_item(structure->0.groups, q[1], item.key) {
                    lemma_cascade(s, x, q[0], q[1], item.key, item.value, comment, request_id, ts);
                }
            },
            None => {},
        }
    }
    assert(p(b));
    lemma_fold_keeps(scan(b.0, k_idx_refg(item.group)), b, g, p);
}

pub proof fn lemma_shared_publish(s: State, comment: Seq<char>, request_id: Seq<char>, ts: i64)
    requires
        sound(s),
        shared_publish(s, comment, request_id, ts) is Ok,
    ensures
        sound(shared_publish(s, comment, request_id, ts)->Ok_0.0),
        keeps(s, shared_publish(s, comment, request_id, ts)->Ok_0.0),
{
    reveal(shared_publish);
    let f = |a: Progress, item: SharedItemView| shared_step(a, item, comment, request_id, ts);
    let p = |a: Progress| sound(a.0) && keeps(s, a.0);
    let start: Progress = (s, Seq::empty());
    assert forall|x: Progress, item: SharedItemView| p(x) && (#[trigger] f(x, item)) is Ok implies p(
        f(x, item)->Ok_0,
    ) by {
        lemma_shared_step(s, x, item, comment, request_id, ts);
    }
    lemma_keeps_reflexive(s);
    assert(p(start));
    lemma_fold_keeps(shared_under(s, K_SHARED_DRAFT@), start, f, p);
}

} // verus!
