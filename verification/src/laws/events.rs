//! The events of a command: one for each version that it makes, and each says what is new in it.
use vstd::prelude::*;

use crate::command::CommandView;
use crate::diff::{finite_snap, item_of, put_item, same_items};
use crate::keys::{
    K_SHARED_DRAFT, k_branch_state, k_idx_ref, k_idx_refg, k_project, k_shared, k_shared_draft,
    k_struct, k_struct_draft, k_version,
};
use crate::laws::changes::{
    alike, has_value, is_named, is_true, law_diff_tells_what_changed, tells, unchanged,
};
use crate::laws::commands::{
    lemma_active_content_finite, lemma_keeps_reflexive, lemma_kept_draft_finite,
    lemma_materialised_finite, lemma_publish_structure,
};
use crate::laws::paths::{
    in_project, is_part, law_state_key_is_no_version_key, lemma_outside_keys, version_key_of,
};
use crate::laws::sound::{
    branch_at, finite_draft, in_place, lemma_put_finite, lemma_snapshot_finite,
    lemma_snapshot_same, same_at, same_version, sound,
};
use crate::laws::steps::{
    lemma_branch_names, lemma_fold_keeps, lemma_outside, lemma_same_branches, lemma_struct_names,
    lemma_structure_key, same_branches,
};
use crate::laws::versions::{
    extended, keeps, keeps_branch, lemma_extended, lemma_extended_frame, lemma_keeps_transitive,
    lemma_same_items_reflexive,
};
use crate::model::{
    BranchStateView, ChangeKind, DiffEntryView, EntryView, EventType, PublishEventView, SharedItem,
    SharedItemView, SnapView, Structure, StructureDraft, StructureView, ValueView, VersionKind,
    VersionRecordView, value_eq,
};
use crate::step::{active_content, branches, fold_steps, read, shared_under, snapshot};
use crate::store::{State, scan};
use crate::transition::{
    Progress, account_create, account_delete, account_login, account_set_password,
    account_single_login, audit_append, branch_create, branch_delete, cascade, cascade_branch,
    cascade_group_row, cascade_item_row, draft_update, has_item, kept_draft, materialised,
    next_number, operator_of, project_create, project_delete, prolong, publish, publish_structure,
    ref_bind, ref_unbind, rollback, session_login, shared_draft_update, shared_publish,
    shared_step, step, structure_draft_set, structure_step, target, time_of,
};

verus! {

/// The content of a version of a branch; nothing before the first.
pub open spec fn content(s: State, id: Seq<char>, branch: Seq<char>, v: u64) -> Option<SnapView> {
    if v == 0 {
        Some(Map::empty())
    } else {
        match snapshot(s, id, branch, v) {
            Ok(m) => Some(m),
            Err(_) => None,
        }
    }
}

/// The record of a version.
pub open spec fn record_at(s: State, id: Seq<char>, branch: Seq<char>, v: u64) -> Option<VersionRecordView> {
    let k = k_version(id, branch, v);
    if s.contains_key(k) {
        match s[k] {
            EntryView::Version(r) => Some(r),
            _ => None,
        }
    } else {
        None
    }
}

/// Whether an event says what is so: its changes lead from the version before to its own, and the record
/// of its version agrees with it.
pub open spec fn is_truthful(s: State, e: PublishEventView) -> bool {
    &&& e.version > 0
    &&& !e.gray
    &&& content(s, e.project, e.branch, (e.version - 1) as u64) matches Some(old) && (content(
        s,
        e.project,
        e.branch,
        e.version,
    ) matches Some(new) && tells(e.changes, old, new))
    &&& record_at(s, e.project, e.branch, e.version) matches Some(r) && r.no == e.version && r.comment
        == e.comment && r.structure_version == e.structure_version && r.event_ty == Some(e.ty)
}

/// Whether the event is about the version.
pub open spec fn is_about(e: PublishEventView, id: Seq<char>, branch: Seq<char>, v: u64) -> bool {
    e.project == id && e.branch == branch && e.version == v
}

/// The number of the active version of a branch.
pub open spec fn active_at(s: State, id: Seq<char>, branch: Seq<char>) -> u64 {
    match branch_at(s, id, branch) {
        Some(st) => st.active_version,
        None => 0,
    }
}

/// Whether one of the events is about the version.
pub open spec fn is_announced(
    events: Seq<PublishEventView>,
    id: Seq<char>,
    branch: Seq<char>,
    v: u64,
) -> bool {
    exists|n: int| 0 <= n < events.len() && is_about(#[trigger] events[n], id, branch, v)
}

/// The events between two states: each is true and about a version that is new, every version that is new
/// has one, and none has two.
#[verifier::opaque]
pub open spec fn is_account(s: State, t: State, events: Seq<PublishEventView>) -> bool {
    &&& forall|n: int|
        0 <= n < events.len() ==> is_truthful(t, #[trigger] events[n]) && branch_at(
            s,
            events[n].project,
            events[n].branch,
        ) is Some && active_at(s, events[n].project, events[n].branch) < events[n].version <= active_at(
            t,
            events[n].project,
            events[n].branch,
        )
    &&& forall|id: Seq<char>, branch: Seq<char>, v: u64|
        #![trigger is_announced(events, id, branch, v)]
        branch_at(s, id, branch) is Some && active_at(s, id, branch) < v <= active_at(t, id, branch)
            ==> is_announced(events, id, branch, v)
    &&& forall|m: int, n: int|
        0 <= m < n < events.len() ==> !is_about(
            #[trigger] events[m],
            (#[trigger] events[n]).project,
            events[n].branch,
            events[n].version,
        )
}

/// What holds while events are gathered.
spec fn in_step(s: State, a: Progress) -> bool {
    &&& sound(a.0)
    &&& keeps(s, a.0)
    &&& forall|i: Seq<char>, b: Seq<char>| (#[trigger] branch_at(a.0, i, b)) is Some ==> branch_at(s, i, b)
        is Some
    &&& is_account(s, a.0, a.1)
}

pub proof fn lemma_alike(a: ValueView, b: ValueView, c: ValueView)
    ensures
        value_eq(a, b) ==> alike(a, b),
        alike(a, b) ==> alike(b, a),
        alike(a, b) && alike(b, c) ==> alike(a, c),
{
}

/// Changes that lead to a configuration lead to all with the same items.
proof fn lemma_tells_same(changes: Seq<DiffEntryView>, old: SnapView, new: SnapView, m: SnapView)
    requires
        tells(changes, old, new),
        same_items(m, new),
    ensures
        tells(changes, old, m),
{
    assert forall|g: Seq<char>, k: Seq<char>| has_value(m, g, k) == has_value(new, g, k) && (has_value(m, g, k)
        ==> alike(m[g][k], new[g][k]) && alike(new[g][k], m[g][k])) && (unchanged(old, m, g, k) == #[trigger] unchanged(
        old,
        new,
        g,
        k,
    )) by {
        assert(match (item_of(m, g, k), item_of(new, g, k)) {
            (Some(x), Some(y)) => value_eq(x, y),
            (None, None) => true,
            _ => false,
        });
        lemma_alike(m[g][k], new[g][k], old[g][k]);
        lemma_alike(old[g][k], new[g][k], m[g][k]);
        lemma_alike(old[g][k], m[g][k], new[g][k]);
    }
    assert forall|i: int| 0 <= i < changes.len() implies is_true(#[trigger] changes[i], old, m) by {
        let d = changes[i];
        assert(is_true(d, old, new));
        assert(unchanged(old, m, d.group, d.key) == unchanged(old, new, d.group, d.key));
        if d.kind == ChangeKind::Upsert {
            lemma_alike(d.new_value->0, new[d.group][d.key], m[d.group][d.key]);
        }
    }
    assert forall|g: Seq<char>, k: Seq<char>|
        #![trigger is_named(changes, g, k)]
        (has_value(old, g, k) || has_value(m, g, k)) && !unchanged(old, m, g, k) implies is_named(changes, g, k) by {
        assert(unchanged(old, m, g, k) == unchanged(old, new, g, k));
    }
}

/// No changes lead from a configuration to one with the same items.
proof fn lemma_tells_nothing(old: SnapView, m: SnapView)
    requires
        same_items(m, old),
    ensures
        tells(Seq::empty(), old, m),
{
    assert forall|g: Seq<char>, k: Seq<char>| (has_value(old, g, k) || has_value(m, g, k)) implies #[trigger] unchanged(
        old,
        m,
        g,
        k,
    ) by {
        assert(match (item_of(m, g, k), item_of(old, g, k)) {
            (Some(x), Some(y)) => value_eq(x, y),
            (None, None) => true,
            _ => false,
        });
        lemma_alike(m[g][k], old[g][k], m[g][k]);
    }
}

/// What an event says of a version that stays is still so.
proof fn lemma_still_truthful(a: State, t: State, e: PublishEventView)
    requires
        sound(a),
        keeps(a, t),
        is_truthful(a, e),
        branch_at(a, e.project, e.branch) is Some,
        e.version <= active_at(a, e.project, e.branch),
    ensures
        is_truthful(t, e),
{
    lemma_branch_names(a, e.project, e.branch);
    assert(keeps_branch(a, t, e.project, e.branch));
    assert forall|n: u64| 1 <= n <= e.version implies #[trigger] same_version(a, t, e.project, e.branch, n) by {}
    lemma_snapshot_same(a, t, e.project, e.branch, e.version);
    lemma_snapshot_same(a, t, e.project, e.branch, (e.version - 1) as u64);
    assert(same_version(a, t, e.project, e.branch, e.version));
}

/// One more version, with its event.
proof fn lemma_one_more(
    s: State,
    a: Progress,
    id: Seq<char>,
    branch: Seq<char>,
    old: SnapView,
    new: SnapView,
    record: VersionRecordView,
    st: BranchStateView,
    e: PublishEventView,
)
    requires
        in_step(s, a),
        is_part(id),
        is_part(branch),
        branch_at(a.0, id, branch) is Some,
        record.no == active_at(a.0, id, branch) + 1,
        st.active_version == record.no,
        content(a.0, id, branch, active_at(a.0, id, branch)) == Some(old),
        finite_snap(new),
        finite_draft(st.value_draft),
        is_about(e, id, branch, record.no),
        !e.gray,
        e.comment == record.comment,
        e.structure_version == record.structure_version,
        record.event_ty == Some(e.ty),
        tells(e.changes, old, new),
    ensures
        in_step(s, (extended(a.0, id, branch, old, new, record, st), a.1.push(e))),
{
    let t = extended(a.0, id, branch, old, new, record, st);
    let events = a.1.push(e);
    let v = active_at(a.0, id, branch);
    lemma_extended(a.0, id, branch, old, new, record, st);
    lemma_extended_frame(a.0, id, branch, old, new, record, st);
    lemma_keeps_transitive(s, a.0, t);
    lemma_branch_names(a.0, id, branch);
    assert(keeps_branch(a.0, t, id, branch));
    assert(is_truthful(t, e)) by {
        let m = snapshot(t, id, branch, record.no)->Ok_0;
        lemma_tells_same(e.changes, old, new, m);
        assert forall|n: u64| 1 <= n <= v implies #[trigger] same_version(a.0, t, id, branch, n) by {}
        lemma_snapshot_same(a.0, t, id, branch, v);
        law_state_key_is_no_version_key(id, branch, id, branch, record.no);
        assert(version_key_of(id, branch, record.no, k_version(id, branch, record.no)));
    }
    assert forall|i: Seq<char>, b: Seq<char>| (#[trigger] branch_at(t, i, b)) is Some implies branch_at(
        s,
        i,
        b,
    ) is Some && active_at(a.0, i, b) == (if i == id && b == branch {
        v
    } else {
        active_at(t, i, b)
    }) by {
        lemma_branch_names(t, i, b);
        if i == id && b == branch {
            assert(branch_at(a.0, id, branch) is Some);
        } else {
            assert(same_at(a.0, t, k_branch_state(i, b)));
            assert(branch_at(a.0, i, b) is Some);
        }
    }
    assert forall|i: Seq<char>, b: Seq<char>| (#[trigger] branch_at(a.0, i, b)) is Some implies branch_at(
        t,
        i,
        b,
    ) is Some by {
        lemma_branch_names(a.0, i, b);
        assert(keeps_branch(a.0, t, i, b));
    }
    assert(branch_at(s, id, branch) is Some);
    assert(keeps_branch(s, a.0, id, branch)) by {
        assert(branch_at(s, id, branch) is Some);
    }
    reveal(is_account);
    assert forall|n: int| 0 <= n < events.len() implies is_truthful(t, #[trigger] events[n]) && branch_at(
        s,
        events[n].project,
        events[n].branch,
    ) is Some && active_at(s, events[n].project, events[n].branch) < events[n].version <= active_at(
        t,
        events[n].project,
        events[n].branch,
    ) by {
        if n < a.1.len() {
            let x = a.1[n];
            assert(events[n] == x);
            assert(branch_at(s, x.project, x.branch) is Some);
            assert(active_at(a.0, x.project, x.branch) > 0);
            assert(branch_at(a.0, x.project, x.branch) is Some);
            lemma_still_truthful(a.0, t, x);
            assert(branch_at(t, x.project, x.branch) is Some);
        }
    }
    assert forall|i: Seq<char>, b: Seq<char>, w: u64|
        #![trigger is_announced(events, i, b, w)]
        branch_at(s, i, b) is Some && active_at(s, i, b) < w <= active_at(t, i, b) implies is_announced(
        events,
        i,
        b,
        w,
    ) by {
        assert(branch_at(t, i, b) is Some);
        if i == id && b == branch && w == record.no {
            assert(is_about(events[a.1.len() as int], i, b, w));
        } else {
            assert(is_announced(a.1, i, b, w));
            let n = choose|n: int| 0 <= n < a.1.len() && is_about(#[trigger] a.1[n], i, b, w);
            assert(events[n] == a.1[n]);
        }
    }
    assert forall|m: int, n: int| 0 <= m < n < events.len() implies !is_about(
        #[trigger] events[m],
        (#[trigger] events[n]).project,
        events[n].branch,
        events[n].version,
    ) by {
        assert(events[m] == a.1[m]);
        if n < a.1.len() {
            assert(events[n] == a.1[n]);
        } else {
            assert(a.1[m].version <= active_at(a.0, a.1[m].project, a.1[m].branch));
        }
    }
}

/// What leaves branches and versions alone makes no events.
proof fn lemma_no_more(s: State, a: Progress, t: State)
    requires
        in_step(s, a),
        sound(t),
        same_branches(a.0, t),
    ensures
        in_step(s, (t, a.1)),
{
    assert forall|i: Seq<char>, b: Seq<char>| (branch_at(a.0, i, b) is Some || branch_at(t, i, b) is Some)
        implies #[trigger] branch_at(t, i, b) == branch_at(a.0, i, b) by {
        if branch_at(t, i, b) is Some {
            lemma_branch_names(t, i, b);
        } else {
            lemma_branch_names(a.0, i, b);
        }
        assert(same_at(a.0, t, k_branch_state(i, b)));
    }
    assert(keeps(a.0, t)) by {
        assert forall|i: Seq<char>, b: Seq<char>|
            is_part(i) && is_part(b) && (#[trigger] branch_at(a.0, i, b)) is Some implies keeps_branch(
            a.0,
            t,
            i,
            b,
        ) by {
            assert(branch_at(t, i, b) == branch_at(a.0, i, b));
        }
    }
    lemma_keeps_transitive(s, a.0, t);
    assert forall|i: Seq<char>, b: Seq<char>| (#[trigger] branch_at(t, i, b)) is Some implies branch_at(
        s,
        i,
        b,
    ) is Some by {
        assert(branch_at(a.0, i, b) is Some);
    }
    reveal(is_account);
    assert forall|n: int| 0 <= n < a.1.len() implies is_truthful(t, #[trigger] a.1[n]) && active_at(
        t,
        a.1[n].project,
        a.1[n].branch,
    ) == active_at(a.0, a.1[n].project, a.1[n].branch) by {
        let x = a.1[n];
        assert(active_at(a.0, x.project, x.branch) > 0);
        assert(branch_at(a.0, x.project, x.branch) is Some);
        lemma_still_truthful(a.0, t, x);
        assert(branch_at(t, x.project, x.branch) == branch_at(a.0, x.project, x.branch));
    }
    assert forall|i: Seq<char>, b: Seq<char>, w: u64|
        #![trigger is_announced(a.1, i, b, w)]
        branch_at(s, i, b) is Some && active_at(s, i, b) < w <= active_at(t, i, b) implies is_announced(
        a.1,
        i,
        b,
        w,
    ) by {
        assert(branch_at(t, i, b) == branch_at(a.0, i, b));
    }
}

proof fn lemma_start(s: State)
    requires
        sound(s),
    ensures
        in_step(s, (s, Seq::empty())),
{
    lemma_keeps_reflexive(s);
    reveal(is_account);
}

proof fn lemma_structure_step_told(
    s: State,
    a: Progress,
    id: Seq<char>,
    branch: Seq<char>,
    structure: StructureView,
    comment: Seq<char>,
    request_id: Seq<char>,
    ts: i64,
    operator: Seq<char>,
)
    requires
        in_step(s, a),
        structure_step(a, id, branch, structure, comment, request_id, ts, operator) is Ok,
    ensures
        in_step(s, structure_step(a, id, branch, structure, comment, request_id, ts, operator)->Ok_0),
{
    let b = structure_step(a, id, branch, structure, comment, request_id, ts, operator)->Ok_0;
    assert(branch_at(a.0, id, branch) is Some);
    lemma_branch_names(a.0, id, branch);
    let st = branch_at(a.0, id, branch)->0;
    let values = active_content(a.0, id, branch, st.active_version)->Ok_0;
    lemma_active_content_finite(a.0, id, branch, st.active_version);
    lemma_kept_draft_finite(st.value_draft, structure.groups);
    let vno = (st.active_version + 1) as u64;
    let record = VersionRecordView {
        no: vno,
        structure_version: structure.version,
        created_at: ts,
        operator: operator_of(operator),
        comment,
        rollback_of: None,
        kind: VersionKind::Full,
        snapshot_ref: None,
        diff_ref: None,
        event_ty: Some(EventType::StructurePublish),
        gray: false,
    };
    let next = BranchStateView {
        active_version: vno,
        structure_version: structure.version,
        value_draft: kept_draft(st.value_draft, structure.groups),
        ..st
    };
    lemma_same_items_reflexive(values);
    lemma_tells_nothing(values, values);
    lemma_one_more(s, a, id, branch, values, values, record, next, b.1.last());
    assert(b.1 =~= a.1.push(b.1.last()));
}

proof fn lemma_cascade_told(
    s: State,
    a: Progress,
    id: Seq<char>,
    group: Seq<char>,
    key: Seq<char>,
    value: ValueView,
    comment: Seq<char>,
    request_id: Seq<char>,
    ts: i64,
)
    requires
        in_step(s, a),
        cascade(a, id, group, key, value, comment, request_id, ts) is Ok,
    ensures
        in_step(s, cascade(a, id, group, key, value, comment, request_id, ts)->Ok_0),
{
    let f = |p: Progress, b: Seq<char>|
        cascade_branch(p, id, b, group, key, value, comment, request_id, ts);
    let p = |p: Progress| in_step(s, p);
    assert forall|x: Progress, b: Seq<char>| p(x) && (#[trigger] f(x, b)) is Ok implies p(
        f(x, b)->Ok_0,
    ) by {
        let y = f(x, b)->Ok_0;
        assert(branch_at(x.0, id, b) is Some);
        lemma_branch_names(x.0, id, b);
        let st = branch_at(x.0, id, b)->0;
        let old = active_content(x.0, id, b, st.active_version)->Ok_0;
        let new = put_item(old, group, key, value);
        lemma_active_content_finite(x.0, id, b, st.active_version);
        lemma_put_finite(old, group, key, value);
        law_diff_tells_what_changed(old, new);
        let vno = (st.active_version + 1) as u64;
        let record = VersionRecordView {
            no: vno,
            structure_version: st.structure_version,
            created_at: ts,
            operator: "shared"@,
            comment,
            rollback_of: None,
            kind: VersionKind::Full,
            snapshot_ref: None,
            diff_ref: None,
            event_ty: Some(EventType::SharedCascade),
            gray: false,
        };
        let next = BranchStateView { active_version: vno, ..st };
        lemma_one_more(s, x, id, b, old, new, record, next, y.1.last());
        assert(y.1 =~= x.1.push(y.1.last()));
    }
    lemma_fold_keeps(branches(a.0, id), a, f, p);
}

proof fn lemma_shared_step_told(
    s: State,
    a: Progress,
    item: SharedItemView,
    comment: Seq<char>,
    request_id: Seq<char>,
    ts: i64,
)
    requires
        in_step(s, a),
        shared_step(a, item, comment, request_id, ts) is Ok,
    ensures
        in_step(s, shared_step(a, item, comment, request_id, ts)->Ok_0),
{
    let prev = read::<SharedItem>(a.0, k_shared(item.group, item.key))->Ok_0;
    let version = next_number(
        match prev {
            Some(p) => p.version,
            None => 0,
        },
    )->Ok_0;
    let e = EntryView::Shared(SharedItemView { version, ..item });
    let t = a.0.insert(k_shared(item.group, item.key), e).remove(
        k_shared_draft(item.group, item.key),
    );
    lemma_outside_keys(item.group, item.key, item.key, item.key, item.key, 0);
    assert forall|k: Seq<char>| in_project(k) implies #[trigger] same_at(a.0, t, k) by {}
    lemma_outside(a.0, t);
    assert forall|k: Seq<char>| #[trigger] t.contains_key(k) implies in_place(k, t[k]) by {
        if k != k_shared(item.group, item.key) {
            assert(a.0.contains_key(k));
        }
    }
    assert forall|i: Seq<char>| is_part(i) && a.0.contains_key(#[trigger] k_project(i)) implies t.contains_key(
        k_project(i),
    ) by {
        assert(same_at(a.0, t, k_project(i)));
    }
    lemma_same_branches(a.0, t);
    lemma_no_more(s, a, t);
    let p = |p: Progress| in_step(s, p);
    let f = |p: Progress, row: (Seq<char>, EntryView)|
        cascade_item_row(p, row, item, comment, request_id, ts);
    let start: Progress = (t, a.1);
    assert forall|x: Progress, row: (Seq<char>, EntryView)| p(x) && (#[trigger] f(x, row)) is Ok implies p(
        f(x, row)->Ok_0,
    ) by {
        match target(row.0, k_idx_ref(item.group, item.key), 3) {
            Some(q) => {
                lemma_cascade_told(s, x, q[0], q[1], q[2], item.value, comment, request_id, ts);
            },
            None => {},
        }
    }
    assert(p(start));
    lemma_fold_keeps(scan(t, k_idx_ref(item.group, item.key)), start, f, p);
    let b = fold_steps(scan(t, k_idx_ref(item.group, item.key)), start, f)->Ok_0;
    let g = |p: Progress, row: (Seq<char>, EntryView)|
        cascade_group_row(p, row, item, comment, request_id, ts);
    assert forall|x: Progress, row: (Seq<char>, EntryView)| p(x) && (#[trigger] g(x, row)) is Ok implies p(
        g(x, row)->Ok_0,
    ) by {
        match target(row.0, k_idx_refg(item.group), 2) {
            Some(q) => {
                let structure = read::<Structure>(x.0, k_struct(q[0]))->Ok_0;
                if structure is Some && has_item(structure->0.groups, q[1], item.key) {
                    lemma_cascade_told(s, x, q[0], q[1], item.key, item.value, comment, request_id, ts);
                }
            },
            None => {},
        }
    }
    assert(p(b));
    lemma_fold_keeps(scan(b.0, k_idx_refg(item.group)), b, g, p);
}

/// Whether a command publishes.
pub open spec fn publishes(c: CommandView) -> bool {
    c is Publish || c is Rollback || c is PublishStructure || c is SharedPublish
}

/// The events of a command that publishes are an account of what it did: every version that it made has
/// one event, and that event says what changed from the version before.
pub proof fn law_events_tell_what_changed(s: State, c: CommandView, now: i64)
    requires
        sound(s),
        step(s, c, now) is Ok,
        publishes(c),
    ensures
        is_account(s, step(s, c, now)->Ok_0.0, step(s, c, now)->Ok_0.1),
{
    lemma_start(s);
    let start: Progress = (s, Seq::empty());
    let r = step(s, c, now)->Ok_0;
    match c {
        CommandView::Publish { project, branch, comment, request_id, operator, ts } => {
            lemma_publish_told(s, project, branch, comment, request_id, time_of(ts, now), operator);
        },
        CommandView::Rollback { project, branch, to_version, comment, request_id, operator, ts } => {
            lemma_rollback_told(
                s,
                project,
                branch,
                to_version,
                comment,
                request_id,
                time_of(ts, now),
                operator,
            );
        },
        CommandView::PublishStructure { project, comment, request_id, operator, ts } => {
            lemma_publish_structure_told(s, project, comment, request_id, time_of(ts, now), operator);
        },
        CommandView::SharedPublish { comment, request_id, operator, ts } => {
            let at = time_of(ts, now);
            reveal(shared_publish);
            let f = |a: Progress, item: SharedItemView| shared_step(a, item, comment, request_id, at);
            let p = |a: Progress| in_step(s, a);
            assert forall|x: Progress, item: SharedItemView| p(x) && (#[trigger] f(x, item)) is Ok implies p(
                f(x, item)->Ok_0,
            ) by {
                lemma_shared_step_told(s, x, item, comment, request_id, at);
            }
            assert(p(start));
            lemma_fold_keeps(shared_under(s, K_SHARED_DRAFT@), start, f, p);
        },
        _ => {},
    }
}

proof fn lemma_publish_told(
    s: State,
    id: Seq<char>,
    branch: Seq<char>,
    comment: Seq<char>,
    request_id: Seq<char>,
    ts: i64,
    operator: Seq<char>,
)
    requires
        sound(s),
        publish(s, id, branch, comment, request_id, ts, operator) is Ok,
    ensures
        in_step(s, publish(s, id, branch, comment, request_id, ts, operator)->Ok_0),
{
    lemma_start(s);
    reveal(publish);
    let r = publish(s, id, branch, comment, request_id, ts, operator)->Ok_0;
    let st = branch_at(s, id, branch)->0;
    assert(branch_at(s, id, branch) is Some);
    lemma_branch_names(s, id, branch);
    if st.last_request_id != Some(request_id) {
        let structure = read::<Structure>(s, k_struct(id))->Ok_0->0;
        let new = materialised(s, id, structure.groups, st.value_draft)->Ok_0;
        let old = active_content(s, id, branch, st.active_version)->Ok_0;
        lemma_materialised_finite(s, id, structure.groups, st.value_draft);
        lemma_active_content_finite(s, id, branch, st.active_version);
        law_diff_tells_what_changed(old, new);
        let vno = (st.active_version + 1) as u64;
        let record = VersionRecordView {
            no: vno,
            structure_version: structure.version,
            created_at: ts,
            operator: operator_of(operator),
            comment,
            rollback_of: None,
            kind: VersionKind::Full,
            snapshot_ref: None,
            diff_ref: None,
            event_ty: Some(EventType::ValuePublish),
            gray: false,
        };
        let next = BranchStateView {
            active_version: vno,
            last_request_id: Some(request_id),
            value_draft: Map::empty(),
            ..st
        };
        assert(finite_draft(next.value_draft));
        lemma_one_more(s, (s, Seq::empty()), id, branch, old, new, record, next, r.1[0]);
        assert(r.1 =~= Seq::<PublishEventView>::empty().push(r.1[0]));
    }
}

proof fn lemma_rollback_told(
    s: State,
    id: Seq<char>,
    branch: Seq<char>,
    to_version: u64,
    comment: Seq<char>,
    request_id: Seq<char>,
    ts: i64,
    operator: Seq<char>,
)
    requires
        sound(s),
        rollback(s, id, branch, to_version, comment, request_id, ts, operator) is Ok,
    ensures
        in_step(s, rollback(s, id, branch, to_version, comment, request_id, ts, operator)->Ok_0),
{
    lemma_start(s);
    reveal(rollback);
    let r = rollback(s, id, branch, to_version, comment, request_id, ts, operator)->Ok_0;
    let st = branch_at(s, id, branch)->0;
    assert(branch_at(s, id, branch) is Some);
    lemma_branch_names(s, id, branch);
    if st.last_request_id != Some(request_id) {
        let new = snapshot(s, id, branch, to_version)->Ok_0;
        let old = snapshot(s, id, branch, st.active_version)->Ok_0;
        lemma_snapshot_finite(s, id, branch, to_version);
        lemma_snapshot_finite(s, id, branch, st.active_version);
        law_diff_tells_what_changed(old, new);
        let vno = (st.active_version + 1) as u64;
        let record = VersionRecordView {
            no: vno,
            structure_version: st.structure_version,
            created_at: ts,
            operator: operator_of(operator),
            comment,
            rollback_of: Some(to_version),
            kind: VersionKind::Full,
            snapshot_ref: None,
            diff_ref: None,
            event_ty: Some(EventType::Rollback),
            gray: false,
        };
        let next = BranchStateView { active_version: vno, last_request_id: Some(request_id), ..st };
        lemma_one_more(s, (s, Seq::empty()), id, branch, old, new, record, next, r.1[0]);
        assert(r.1 =~= Seq::<PublishEventView>::empty().push(r.1[0]));
    }
}

proof fn lemma_publish_structure_told(
    s: State,
    id: Seq<char>,
    comment: Seq<char>,
    request_id: Seq<char>,
    ts: i64,
    operator: Seq<char>,
)
    requires
        sound(s),
        publish_structure(s, id, comment, request_id, ts, operator) is Ok,
    ensures
        in_step(s, publish_structure(s, id, comment, request_id, ts, operator)->Ok_0),
{
    lemma_start(s);
    lemma_publish_structure(s, id, comment, request_id, ts, operator);
    reveal(publish_structure);
    let structure = read::<Structure>(s, k_struct(id))->Ok_0->0;
    let draft = read::<StructureDraft>(s, k_struct_draft(id))->Ok_0->0;
    let new = StructureView { version: (structure.version + 1) as u64, groups: draft.groups };
    let f = |a: Progress, b: Seq<char>|
        structure_step(a, id, b, new, comment, request_id, ts, operator);
    let p = |a: Progress| in_step(s, a);
    let start: Progress = (s, Seq::empty());
    assert forall|a: Progress, b: Seq<char>| p(a) && (#[trigger] f(a, b)) is Ok implies p(
        f(a, b)->Ok_0,
    ) by {
        lemma_structure_step_told(s, a, id, b, new, comment, request_id, ts, operator);
    }
    assert(p(start));
    lemma_fold_keeps(branches(s, id), start, f, p);
    let a = fold_steps(branches(s, id), start, f)->Ok_0;
    assert(p(a));
    let t = a.0.insert(k_struct(id), EntryView::Structure(new)).remove(k_struct_draft(id));
    lemma_struct_names(s, id);
    lemma_structure_key(a.0, t, id);
    lemma_no_more(s, a, t);
}

// ---------------------------------------------------------------------------------------------
// The request behind the events
// ---------------------------------------------------------------------------------------------

/// Whether all events carry the comment and the id of the request, and are of the type.
spec fn are_signed(
    events: Seq<PublishEventView>,
    ty: EventType,
    comment: Seq<char>,
    request_id: Seq<char>,
) -> bool {
    forall|n: int|
        0 <= n < events.len() ==> (#[trigger] events[n]).ty == ty && events[n].comment == comment
            && events[n].request_id == request_id
}

proof fn lemma_cascade_signed(
    a: Progress,
    id: Seq<char>,
    group: Seq<char>,
    key: Seq<char>,
    value: ValueView,
    comment: Seq<char>,
    request_id: Seq<char>,
    ts: i64,
)
    requires
        are_signed(a.1, EventType::SharedCascade, comment, request_id),
        cascade(a, id, group, key, value, comment, request_id, ts) is Ok,
    ensures
        are_signed(
            cascade(a, id, group, key, value, comment, request_id, ts)->Ok_0.1,
            EventType::SharedCascade,
            comment,
            request_id,
        ),
{
    let f = |p: Progress, b: Seq<char>|
        cascade_branch(p, id, b, group, key, value, comment, request_id, ts);
    let p = |p: Progress| are_signed(p.1, EventType::SharedCascade, comment, request_id);
    assert forall|x: Progress, b: Seq<char>| p(x) && (#[trigger] f(x, b)) is Ok implies p(
        f(x, b)->Ok_0,
    ) by {}
    lemma_fold_keeps(branches(a.0, id), a, f, p);
}

proof fn lemma_shared_step_signed(
    a: Progress,
    item: SharedItemView,
    comment: Seq<char>,
    request_id: Seq<char>,
    ts: i64,
)
    requires
        are_signed(a.1, EventType::SharedCascade, comment, request_id),
        shared_step(a, item, comment, request_id, ts) is Ok,
    ensures
        are_signed(
            shared_step(a, item, comment, request_id, ts)->Ok_0.1,
            EventType::SharedCascade,
            comment,
            request_id,
        ),
{
    let prev = read::<SharedItem>(a.0, k_shared(item.group, item.key))->Ok_0;
    let version = next_number(
        match prev {
            Some(p) => p.version,
            None => 0,
        },
    )->Ok_0;
    let t = a.0.insert(
        k_shared(item.group, item.key),
        EntryView::Shared(SharedItemView { version, ..item }),
    ).remove(k_shared_draft(item.group, item.key));
    let p = |p: Progress| are_signed(p.1, EventType::SharedCascade, comment, request_id);
    let f = |p: Progress, row: (Seq<char>, EntryView)|
        cascade_item_row(p, row, item, comment, request_id, ts);
    let start: Progress = (t, a.1);
    assert forall|x: Progress, row: (Seq<char>, EntryView)| p(x) && (#[trigger] f(x, row)) is Ok implies p(
        f(x, row)->Ok_0,
    ) by {
        match target(row.0, k_idx_ref(item.group, item.key), 3) {
            Some(q) => {
                lemma_cascade_signed(x, q[0], q[1], q[2], item.value, comment, request_id, ts);
            },
            None => {},
        }
    }
    assert(p(start));
    lemma_fold_keeps(scan(t, k_idx_ref(item.group, item.key)), start, f, p);
    let b = fold_steps(scan(t, k_idx_ref(item.group, item.key)), start, f)->Ok_0;
    let g = |p: Progress, row: (Seq<char>, EntryView)|
        cascade_group_row(p, row, item, comment, request_id, ts);
    assert forall|x: Progress, row: (Seq<char>, EntryView)| p(x) && (#[trigger] g(x, row)) is Ok implies p(
        g(x, row)->Ok_0,
    ) by {
        match target(row.0, k_idx_refg(item.group), 2) {
            Some(q) => {
                let structure = read::<Structure>(x.0, k_struct(q[0]))->Ok_0;
                if structure is Some && has_item(structure->0.groups, q[1], item.key) {
                    lemma_cascade_signed(x, q[0], q[1], item.key, item.value, comment, request_id, ts);
                }
            },
            None => {},
        }
    }
    assert(p(b));
    lemma_fold_keeps(scan(b.0, k_idx_refg(item.group)), b, g, p);
}

/// Every event says which kind of command made it, and carries the comment and the id of the request. Commands
/// that do not publish make no events.
pub proof fn law_events_name_their_request(s: State, c: CommandView, now: i64, n: int)
    requires
        step(s, c, now) is Ok,
        0 <= n < step(s, c, now)->Ok_0.1.len(),
    ensures
        ({
            let e = step(s, c, now)->Ok_0.1[n];
            match c {
                CommandView::Publish { project, branch, comment, request_id, operator, ts } => {
                    &&& e.ty == EventType::ValuePublish
                    &&& e.project == project && e.branch == branch
                    &&& e.comment == comment && e.request_id == request_id
                },
                CommandView::Rollback { project, branch, to_version, comment, request_id, operator, ts } => {
                    &&& e.ty == EventType::Rollback
                    &&& e.project == project && e.branch == branch
                    &&& e.comment == comment && e.request_id == request_id
                },
                CommandView::PublishStructure { project, comment, request_id, operator, ts } => {
                    &&& e.ty == EventType::StructurePublish
                    &&& e.project == project
                    &&& e.comment == comment && e.request_id == request_id
                },
                CommandView::SharedPublish { comment, request_id, operator, ts } => {
                    &&& e.ty == EventType::SharedCascade
                    &&& e.comment == comment && e.request_id == request_id
                },
                _ => false,
            }
        }),
{
    let start: Progress = (s, Seq::empty());
    match c {
        CommandView::Publish { project, branch, comment, request_id, operator, ts } => {
            reveal(publish);
        },
        CommandView::Rollback { project, branch, to_version, comment, request_id, operator, ts } => {
            reveal(rollback);
        },
        CommandView::PublishStructure { project, comment, request_id, operator, ts } => {
            reveal(publish_structure);
            let at = time_of(ts, now);
            let structure = read::<Structure>(s, k_struct(project))->Ok_0->0;
            let draft = read::<StructureDraft>(s, k_struct_draft(project))->Ok_0->0;
            let new = StructureView { version: (structure.version + 1) as u64, groups: draft.groups };
            let f = |a: Progress, b: Seq<char>|
                structure_step(a, project, b, new, comment, request_id, at, operator);
            let p = |a: Progress|
                are_signed(a.1, EventType::StructurePublish, comment, request_id) && forall|i: int|
                    0 <= i < a.1.len() ==> (#[trigger] a.1[i]).project == project;
            assert forall|a: Progress, b: Seq<char>| p(a) && (#[trigger] f(a, b)) is Ok implies p(
                f(a, b)->Ok_0,
            ) by {}
            assert(p(start));
            lemma_fold_keeps(branches(s, project), start, f, p);
        },
        CommandView::SharedPublish { comment, request_id, operator, ts } => {
            reveal(shared_publish);
            let at = time_of(ts, now);
            let f = |a: Progress, item: SharedItemView| shared_step(a, item, comment, request_id, at);
            let p = |a: Progress| are_signed(a.1, EventType::SharedCascade, comment, request_id);
            assert forall|x: Progress, item: SharedItemView| p(x) && (#[trigger] f(x, item)) is Ok implies p(
                f(x, item)->Ok_0,
            ) by {
                lemma_shared_step_signed(x, item, comment, request_id, at);
            }
            assert(p(start));
            lemma_fold_keeps(shared_under(s, K_SHARED_DRAFT@), start, f, p);
        },
        _ => {
            reveal(project_create);
            reveal(project_delete);
            reveal(branch_create);
            reveal(branch_delete);
            reveal(structure_draft_set);
            reveal(draft_update);
            reveal(shared_draft_update);
            reveal(ref_bind);
            reveal(ref_unbind);
            reveal(session_login);
            reveal(prolong);
            reveal(account_create);
            reveal(account_delete);
            reveal(account_set_password);
            reveal(account_login);
            reveal(account_single_login);
            reveal(audit_append);
        },
    }
}

/// The record of a version that a publish or a rollback makes says who made it, when, and, for a rollback, which
/// version it restores.
pub proof fn law_records_name_their_origin(
    s: State,
    id: Seq<char>,
    branch: Seq<char>,
    to_version: u64,
    comment: Seq<char>,
    request_id: Seq<char>,
    operator: Seq<char>,
    ts: i64,
    now: i64,
)
    requires
        sound(s),
        branch_at(s, id, branch) matches Some(st) && st.last_request_id != Some(request_id),
    ensures
        ({
            let p = step(
                s,
                CommandView::Publish { project: id, branch, comment, request_id, operator, ts },
                now,
            );
            let q = step(
                s,
                CommandView::Rollback { project: id, branch, to_version, comment, request_id, operator, ts },
                now,
            );
            let v = (active_at(s, id, branch) + 1) as u64;
            let who = if operator.len() == 0 {
                "admin"@
            } else {
                operator
            };
            let when = if ts > 0 {
                ts
            } else {
                now
            };
            &&& p matches Ok(x) ==> (record_at(x.0, id, branch, v) matches Some(r) && r.operator == who
                && r.created_at == when && r.comment == comment && r.rollback_of is None)
            &&& q matches Ok(x) ==> (record_at(x.0, id, branch, v) matches Some(r) && r.operator == who
                && r.created_at == when && r.comment == comment && r.rollback_of == Some(to_version))
        }),
{
    reveal(publish);
    reveal(rollback);
    lemma_branch_names(s, id, branch);
    let v = (active_at(s, id, branch) + 1) as u64;
    law_state_key_is_no_version_key(id, branch, id, branch, v);
    assert(version_key_of(id, branch, v, k_version(id, branch, v)));
}

} // verus!
