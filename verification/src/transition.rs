//! What each command does to the state.
use vstd::prelude::*;

use crate::command::{CommandView, DraftUpdateItemView};
use crate::diff::{diff_of, item_of, put_item};
use crate::dup::views;
use crate::error::{
    DetailView, Error, ErrorKind, ErrorView, blocked_err, conflict_err, err, internal_err,
    limit_err, not_found_err, validation_err,
};
use crate::gather::gather;
use crate::json::{shared_text, value_text};
use crate::keys::{
    K_ADMIN_PW, K_AUDIT, K_AUDIT_SEQ, K_IDX_REF, K_IDX_REFG, K_SESSION, K_SESSIONS, K_SHARED_DRAFT,
    k_admin_session, k_audit, k_branch_prefix, k_branch_state, k_diff, k_group_ref_index,
    k_idx_pname, k_idx_ref, k_idx_refg, k_pa_session, k_pa_session_with, k_pa_sessions_prefix,
    k_project, k_project_admin, k_ref, k_ref_index, k_shared, k_shared_draft, k_shared_prefix,
    k_snapshot, k_struct, k_struct_draft, k_version,
};
use crate::limits::{MAX_BRANCHES_PER_PROJECT, MAX_ITEMS_PER_PROJECT, MAX_PROJECTS, MAX_VALUE_BYTES};
use crate::model::{
    AdminSession, AdminSessionView, AuditEntryView, BranchState, BranchStateView, DraftValueView,
    EntryView, EventType, GroupDefView, ItemDefView, PrincipalView, Project, ProjectAdminAccount,
    ProjectAdminAccountView, ProjectView, PublishEventView, RefBinding, RefBindingView, SharedItem,
    SharedItemView, SnapView, Structure, StructureDraft, StructureDraftView, StructureView,
    ValueType, ValueView, VersionKind, VersionRecordView, new_branch,
};
use crate::ordmap::listing;
use crate::outside::quoted;
use crate::sort::sorted;
use crate::state::ApplyOutcome;
use crate::step::{
    accounts, active_content, base_of, branches, fold_steps, history, is_account_name,
    is_branch_name, is_project_name, need, projects, read, refs, shared_under, snapshot,
    with_version,
};
use crate::store::{State, delete_all, scan};
use crate::text::{dec, joined, number_of, split_on};
use crate::validator::{
    DraftView, is_key_name, long_description, publish_errors, structure_errors, utf8_len,
    value_errors,
};

verus! {

/// The state after a command and the events that it gives, or the error that it ends in.
pub type Outcome = Result<(State, Seq<PublishEventView>), ErrorView>;

/// The state while events are gathered.
pub type Progress = (State, Seq<PublishEventView>);

/// A command that gives no events.
pub open spec fn done(s: State) -> Outcome {
    Ok((s, Seq::empty()))
}

/// The result of applying a command is the wanted one, with `post` as the state after it, or the store
/// failed.
pub open spec fn applies(r: ApplyOutcome, want: Outcome, post: State, reliable: bool) -> bool {
    match r {
        Ok(events) => want == Ok::<Progress, ErrorView>((post, views(events@))),
        Err(e) => !reliable || want == Err::<Progress, ErrorView>(e@),
    }
}

/// The result of a step is the wanted one.
pub open spec fn proceeds(
    r: Result<(), Error>,
    want: Result<Progress, ErrorView>,
    post: State,
    events: Seq<PublishEventView>,
    reliable: bool,
) -> bool {
    match r {
        Ok(_) => want == Ok::<Progress, ErrorView>((post, events)),
        Err(e) => !reliable || want == Err::<Progress, ErrorView>(e@),
    }
}

/// The time of a command: its own, or, where it has none, the time at which it is applied.
pub open spec fn time_of(ts: i64, now: i64) -> i64 {
    if ts > 0 {
        ts
    } else {
        now
    }
}

/// Who gave a command: an empty name stands for the administrator.
pub open spec fn operator_of(operator: Seq<char>) -> Seq<char> {
    if operator.len() == 0 {
        "admin"@
    } else {
        operator
    }
}

/// The number after `v`.
pub open spec fn next_number(v: u64) -> Result<u64, ErrorView> {
    if v == u64::MAX {
        Err(internal_err("number overflow"@))
    } else {
        Ok((v + 1) as u64)
    }
}

pub open spec fn project_missing(id: Seq<char>) -> ErrorView {
    not_found_err("project "@ + id)
}

pub open spec fn branch_missing_err(id: Seq<char>, branch: Seq<char>) -> ErrorView {
    not_found_err("branch "@ + branch + " of "@ + id)
}

// ---------------------------------------------------------------------------------------------
// Projects and branches
// ---------------------------------------------------------------------------------------------

/// The state with a new project: its entry, its name, an empty structure and three branches.
pub open spec fn with_project(s: State, name: Seq<char>, ts: i64) -> State {
    s.insert(
        k_project(name),
        EntryView::Project(ProjectView { id: name, name, created_at: ts }),
    ).insert(k_idx_pname(name), EntryView::Text("1"@)).insert(
        k_struct(name),
        EntryView::Structure(StructureView { version: 1, groups: Seq::empty() }),
    ).insert(
        k_branch_state(name, "dev"@),
        EntryView::Branch(new_branch(1)),
    ).insert(
        k_branch_state(name, "test"@),
        EntryView::Branch(new_branch(1)),
    ).insert(k_branch_state(name, "prod"@), EntryView::Branch(new_branch(1)))
}

#[verifier::opaque]
pub open spec fn project_create(s: State, name: Seq<char>, ts: i64) -> Outcome {
    if !is_project_name(name) {
        Err(validation_err("invalid project name: "@ + quoted(name)))
    } else if projects(s).len() >= MAX_PROJECTS {
        Err(limit_err("too many projects"@))
    } else {
        match read::<Project>(s, k_project(name)) {
            Err(e) => Err(e),
            Ok(Some(_)) => Err(conflict_err("project "@ + name + " already exists"@)),
            Ok(None) => done(with_project(s, name, ts)),
        }
    }
}

/// Whether the key belongs to an account of the project, or to a session of such an account.
pub open spec fn account_key(s: State, id: Seq<char>, k: Seq<char>) -> bool {
    exists|i: int|
        0 <= i < accounts(s, id).len() && account_owns(#[trigger] accounts(s, id)[i].username, k)
}

pub open spec fn account_owns(username: Seq<char>, k: Seq<char>) -> bool {
    k == k_project_admin(username) || session_of(username, k)
}

/// Whether the key is that of a session of a project administrator.
pub open spec fn session_of(username: Seq<char>, k: Seq<char>) -> bool {
    k == k_pa_session(username) || k_pa_sessions_prefix(username).is_prefix_of(k)
}

/// Whether the key marks a reference of the project to the shared library.
pub open spec fn ref_mark(id: Seq<char>, k: Seq<char>) -> bool {
    ||| K_IDX_REF@.is_prefix_of(k) && ({
        let parts = split_on(k.skip(K_IDX_REF@.len() as int), '/');
        parts.len() == 5 && parts[2] == id
    })
    ||| K_IDX_REFG@.is_prefix_of(k) && ({
        let parts = split_on(k.skip(K_IDX_REFG@.len() as int), '/');
        parts.len() == 3 && parts[1] == id
    })
}

/// Whether the key begins with that of the project: it belongs to the project, or to one whose name begins
/// with its name.
pub open spec fn of_project(id: Seq<char>, k: Seq<char>) -> bool {
    k_project(id).is_prefix_of(k)
}

/// Whether the key begins with that of the branch: it belongs to the branch, or to one of the project whose
/// name begins with its name.
pub open spec fn of_branch(id: Seq<char>, branch: Seq<char>, k: Seq<char>) -> bool {
    k_branch_prefix(id, branch).is_prefix_of(k)
}

/// The keys that go with a project when it is deleted.
pub open spec fn goes_with_project(s: State, id: Seq<char>, name: Seq<char>, k: Seq<char>) -> bool {
    of_project(id, k) || k == k_idx_pname(name) || account_key(s, id, k) || ref_mark(id, k)
}

#[verifier::opaque]
pub open spec fn project_delete(s: State, id: Seq<char>) -> Outcome {
    match need::<Project>(s, k_project(id), project_missing(id)) {
        Err(e) => Err(e),
        Ok(p) => done(
            s.remove_keys(Set::new(|k: Seq<char>| goes_with_project(s, id, p.name, k))),
        ),
    }
}

/// The values of a version as a draft.
pub open spec fn draft_from(m: SnapView, ts: i64) -> DraftView {
    m.map_values(
        |inner: Map<Seq<char>, ValueView>|
            inner.map_values(|v: ValueView| DraftValueView { value: v, updated_at: ts }),
    )
}

/// The state of a new branch.
pub open spec fn first_state(
    s: State,
    id: Seq<char>,
    structure_version: u64,
    source: Option<Seq<char>>,
    ts: i64,
) -> Result<BranchStateView, ErrorView> {
    match source {
        None => Ok(new_branch(structure_version)),
        Some(src) => match need::<BranchState>(
            s,
            k_branch_state(id, src),
            validation_err("source branch "@ + src + " not found"@),
        ) {
            Err(e) => Err(e),
            Ok(st) => if st.active_version == 0 {
                Err(validation_err("source branch "@ + src + " has no published version"@))
            } else {
                match snapshot(s, id, src, st.active_version) {
                    Err(e) => Err(e),
                    Ok(m) => Ok(
                        BranchStateView {
                            value_draft: draft_from(m, ts),
                            ..new_branch(structure_version)
                        },
                    ),
                }
            },
        },
    }
}

#[verifier::opaque]
pub open spec fn branch_create(
    s: State,
    id: Seq<char>,
    name: Seq<char>,
    source: Option<Seq<char>>,
    ts: i64,
) -> Outcome {
    if !is_branch_name(name) {
        Err(validation_err("invalid branch name: BranchName("@ + quoted(name) + ")"@))
    } else {
        match need::<Project>(s, k_project(id), project_missing(id)) {
            Err(e) => Err(e),
            Ok(_) => match read::<BranchState>(s, k_branch_state(id, name)) {
                Err(e) => Err(e),
                Ok(Some(_)) => Err(conflict_err("branch "@ + name + " exists"@)),
                Ok(None) => if branches(s, id).len() >= MAX_BRANCHES_PER_PROJECT {
                    Err(limit_err("too many branches"@))
                } else {
                    match read::<Structure>(s, k_struct(id)) {
                        Err(e) => Err(e),
                        Ok(structure) => match first_state(
                            s,
                            id,
                            match structure {
                                Some(x) => x.version,
                                None => 1,
                            },
                            source,
                            ts,
                        ) {
                            Err(e) => Err(e),
                            Ok(st) => done(
                                s.insert(k_branch_state(id, name), EntryView::Branch(st)),
                            ),
                        },
                    }
                },
            },
        }
    }
}

#[verifier::opaque]
pub open spec fn branch_delete(s: State, id: Seq<char>, name: Seq<char>) -> Outcome {
    match need::<BranchState>(s, k_branch_state(id, name), branch_missing_err(id, name)) {
        Err(e) => Err(e),
        Ok(st) => if st.active_version > 0 || st.value_draft != DraftView::empty() {
            Err(conflict_err("branch has published versions or pending draft"@))
        } else {
            done(s.remove_keys(Set::new(|k: Seq<char>| of_branch(id, name, k))))
        },
    }
}

// ---------------------------------------------------------------------------------------------
// Structures
// ---------------------------------------------------------------------------------------------

/// The error that lists what is wrong.
pub open spec fn blocked_by(errors: Seq<Seq<char>>) -> ErrorView {
    blocked_err(DetailView { name: "errors"@, messages: errors })
}

#[verifier::opaque]
pub open spec fn structure_draft_set(
    s: State,
    id: Seq<char>,
    base_version: u64,
    groups: Seq<GroupDefView>,
) -> Outcome {
    match need::<Structure>(s, k_struct(id), project_missing(id)) {
        Err(e) => Err(e),
        Ok(structure) => if base_version != structure.version {
            Err(
                conflict_err(
                    "base_version "@ + dec(base_version as nat) + " != current structure version "@
                        + dec(structure.version as nat),
                ),
            )
        } else if structure_errors(groups).len() > 0 {
            Err(blocked_by(structure_errors(groups)))
        } else {
            done(
                s.insert(
                    k_struct_draft(id),
                    EntryView::StructureDraft(StructureDraftView { base_version, groups }),
                ),
            )
        },
    }
}

/// Whether a structure has the item.
pub open spec fn has_item(groups: Seq<GroupDefView>, g: Seq<char>, k: Seq<char>) -> bool {
    exists|i: int, j: int|
        0 <= i < groups.len() && 0 <= j < groups[i].items.len() && groups[i].name == g && (
        #[trigger] groups[i].items[j]).key == k
}

/// The keys of the draft of group `g` that the structure still has.
pub open spec fn kept_keys(draft: DraftView, groups: Seq<GroupDefView>, g: Seq<char>) -> Map<
    Seq<char>,
    DraftValueView,
> {
    Map::new(
        |k: Seq<char>| draft[g].contains_key(k) && has_item(groups, g, k),
        |k: Seq<char>| draft[g][k],
    )
}

/// The draft without the values of items that the structure does not have.
pub open spec fn kept_draft(draft: DraftView, groups: Seq<GroupDefView>) -> DraftView {
    Map::new(
        |g: Seq<char>|
            draft.contains_key(g) && kept_keys(draft, groups, g) != Map::<
                Seq<char>,
                DraftValueView,
            >::empty(),
        |g: Seq<char>| kept_keys(draft, groups, g),
    )
}

/// The branch at its next version, with the structure of that version and unchanged values.
pub open spec fn structure_step(
    a: Progress,
    id: Seq<char>,
    branch: Seq<char>,
    structure: StructureView,
    comment: Seq<char>,
    request_id: Seq<char>,
    ts: i64,
    operator: Seq<char>,
) -> Result<Progress, ErrorView> {
    match need::<BranchState>(
        a.0,
        k_branch_state(id, branch),
        internal_err("branch state missing"@),
    ) {
        Err(e) => Err(e),
        Ok(st) => match next_number(st.active_version) {
            Err(e) => Err(e),
            Ok(vno) => match active_content(a.0, id, branch, st.active_version) {
                Err(e) => Err(e),
                Ok(values) => Ok(
                    (
                        with_version(
                            a.0,
                            id,
                            branch,
                            values,
                            values,
                            VersionRecordView {
                                no: vno,
                                structure_version: structure.version,
                                created_at: ts,
                                operator: operator_of(operator),
                                comment,
                                rollback_of: None,
                                kind: VersionKind::Full,
                                snapshot_ref: None,
                                diff_ref: None,
                                event_ty: Some(EventType::StructurePublish),
                                gray: false,
                            },
                        ).insert(
                            k_branch_state(id, branch),
                            EntryView::Branch(
                                BranchStateView {
                                    active_version: vno,
                                    structure_version: structure.version,
                                    value_draft: kept_draft(st.value_draft, structure.groups),
                                    ..st
                                },
                            ),
                        ),
                        a.1.push(
                            PublishEventView {
                                project: id,
                                branch,
                                version: vno,
                                ty: EventType::StructurePublish,
                                structure_version: structure.version,
                                comment,
                                request_id,
                                changes: Seq::empty(),
                                gray: false,
                            },
                        ),
                    ),
                ),
            },
        },
    }
}

#[verifier::opaque]
pub open spec fn publish_structure(
    s: State,
    id: Seq<char>,
    comment: Seq<char>,
    request_id: Seq<char>,
    ts: i64,
    operator: Seq<char>,
) -> Outcome {
    match need::<Structure>(s, k_struct(id), project_missing(id)) {
        Err(e) => Err(e),
        Ok(structure) => match need::<StructureDraft>(
            s,
            k_struct_draft(id),
            err(ErrorKind::NoDraft, "no structure draft"@),
        ) {
            Err(e) => Err(e),
            Ok(draft) => if draft.base_version != structure.version {
                Err(conflict_err("structure draft base_version mismatch"@))
            } else if structure_errors(draft.groups).len() > 0 {
                Err(blocked_by(structure_errors(draft.groups)))
            } else {
                match next_number(structure.version) {
                    Err(e) => Err(e),
                    Ok(version) => {
                        let new = StructureView { version, groups: draft.groups };
                        match fold_steps(
                            branches(s, id),
                            (s, Seq::empty()),
                            |a: Progress, b: Seq<char>|
                                structure_step(a, id, b, new, comment, request_id, ts, operator),
                        ) {
                            Err(e) => Err(e),
                            Ok(a) => Ok(
                                (
                                    a.0.insert(k_struct(id), EntryView::Structure(new)).remove(
                                        k_struct_draft(id),
                                    ),
                                    a.1,
                                ),
                            ),
                        }
                    },
                }
            },
        },
    }
}

// ---------------------------------------------------------------------------------------------
// Drafts
// ---------------------------------------------------------------------------------------------

/// The last of the first `n` items with the key.
pub open spec fn def_in(items: Seq<ItemDefView>, n: nat, k: Seq<char>) -> Option<ItemDefView>
    decreases n,
{
    if n == 0 {
        None
    } else if items[n - 1].key == k {
        Some(items[n - 1])
    } else {
        def_in(items, (n - 1) as nat, k)
    }
}

/// The definition of an item: the last one, where the structure has several.
pub open spec fn def_of(groups: Seq<GroupDefView>, n: nat, g: Seq<char>, k: Seq<char>) -> Option<
    ItemDefView,
>
    decreases n,
{
    if n == 0 {
        None
    } else if groups[n - 1].name == g && def_in(groups[n - 1].items, groups[n - 1].items.len(), k)
        is Some {
        def_in(groups[n - 1].items, groups[n - 1].items.len(), k)
    } else {
        def_of(groups, (n - 1) as nat, g, k)
    }
}

pub open spec fn in_draft(draft: DraftView, g: Seq<char>, k: Seq<char>) -> bool {
    draft.contains_key(g) && draft[g].contains_key(k)
}

/// The number of items in the first `n` groups of a draft.
pub open spec fn draft_size(rows: Seq<(Seq<char>, Map<Seq<char>, DraftValueView>)>) -> nat
    decreases rows.len(),
{
    if rows.len() == 0 {
        0
    } else {
        draft_size(rows.drop_last()) + listing(rows.last().1).len()
    }
}

/// Checks one update of a draft that holds `total` items so far, and counts it.
pub open spec fn check_update(
    groups: Seq<GroupDefView>,
    draft: DraftView,
    total: nat,
    u: DraftUpdateItemView,
) -> Result<nat, ErrorView> {
    match def_of(groups, groups.len(), u.group, u.key) {
        None => Err(validation_err("unknown item "@ + u.group + "/"@ + u.key)),
        Some(def) => if def.shared_ref is Some {
            Err(validation_err("read-only item "@ + u.group + "/"@ + u.key))
        } else if value_errors(def, u.value).len() > 0 {
            Err(validation_err(joined(value_errors(def, u.value), "; "@)))
        } else if utf8_len(value_text(u.value)) > MAX_VALUE_BYTES {
            Err(limit_err("value too large"@))
        } else if in_draft(draft, u.group, u.key) {
            Ok(total)
        } else if total + 1 > MAX_ITEMS_PER_PROJECT {
            Err(limit_err("too many draft items"@))
        } else {
            Ok(total + 1)
        },
    }
}

/// The draft after deletions; a group stays, even when it is empty.
pub open spec fn after_deletes(m: DraftView, deletes: Seq<(Seq<char>, Seq<char>)>) -> DraftView
    decreases deletes.len(),
{
    if deletes.len() == 0 {
        m
    } else {
        let d = after_deletes(m, deletes.drop_last());
        let (g, k) = deletes.last();
        if d.contains_key(g) {
            d.insert(g, d[g].remove(k))
        } else {
            d
        }
    }
}

/// The draft after updates.
pub open spec fn after_updates(m: DraftView, updates: Seq<DraftUpdateItemView>, ts: i64) -> DraftView
    decreases updates.len(),
{
    if updates.len() == 0 {
        m
    } else {
        let d = after_updates(m, updates.drop_last(), ts);
        let u = updates.last();
        d.insert(
            u.group,
            (if d.contains_key(u.group) {
                d[u.group]
            } else {
                Map::empty()
            }).insert(u.key, DraftValueView { value: u.value, updated_at: ts }),
        )
    }
}

#[verifier::opaque]
pub open spec fn draft_update(
    s: State,
    id: Seq<char>,
    branch: Seq<char>,
    updates: Seq<DraftUpdateItemView>,
    deletes: Seq<(Seq<char>, Seq<char>)>,
    ts: i64,
) -> Outcome {
    match need::<BranchState>(s, k_branch_state(id, branch), branch_missing_err(id, branch)) {
        Err(e) => Err(e),
        Ok(st) => match need::<Structure>(s, k_struct(id), project_missing(id)) {
            Err(e) => Err(e),
            Ok(structure) => match fold_steps(
                updates,
                draft_size(listing(st.value_draft)),
                |total: nat, u: DraftUpdateItemView|
                    check_update(structure.groups, st.value_draft, total, u),
            ) {
                Err(e) => Err(e),
                Ok(_) => match next_number(st.draft_rev) {
                    Err(e) => Err(e),
                    Ok(rev) => done(
                        s.insert(
                            k_branch_state(id, branch),
                            EntryView::Branch(
                                BranchStateView {
                                    value_draft: after_updates(
                                        after_deletes(st.value_draft, deletes),
                                        updates,
                                        ts,
                                    ),
                                    draft_rev: rev,
                                    ..st
                                },
                            ),
                        ),
                    ),
                },
            },
        },
    }
}

// ---------------------------------------------------------------------------------------------
// Publishing
// ---------------------------------------------------------------------------------------------

/// The values of a draft.
pub open spec fn draft_values(m: DraftView) -> SnapView {
    m.map_values(
        |inner: Map<Seq<char>, DraftValueView>| inner.map_values(|d: DraftValueView| d.value),
    )
}

/// The configuration with a shared value where it has none of its own.
pub open spec fn fill_from_shared(
    s: State,
    m: SnapView,
    group: Seq<char>,
    key: Seq<char>,
    shared_group: Seq<char>,
    shared_key: Seq<char>,
) -> Result<SnapView, ErrorView> {
    if item_of(m, group, key) is Some {
        Ok(m)
    } else {
        match read::<SharedItem>(s, k_shared(shared_group, shared_key)) {
            Err(e) => Err(e),
            Ok(Some(shared)) => Ok(put_item(m, group, key, shared.value)),
            Ok(None) => Ok(m),
        }
    }
}

/// The index of the first group with the name, or the number of groups.
pub open spec fn group_index(groups: Seq<GroupDefView>, name: Seq<char>) -> int
    decreases groups.len(),
{
    if groups.len() == 0 {
        0
    } else if group_index(groups.drop_last(), name) < groups.len() - 1 {
        group_index(groups.drop_last(), name)
    } else if groups.last().name == name {
        groups.len() - 1
    } else {
        groups.len() as int
    }
}

/// The configuration with what one reference brings in.
pub open spec fn resolve_ref(
    s: State,
    groups: Seq<GroupDefView>,
    m: SnapView,
    b: RefBindingView,
) -> Result<SnapView, ErrorView> {
    match b.item_key {
        Some(key) => fill_from_shared(s, m, b.group, key, b.shared_group, b.shared_key),
        None => if group_index(groups, b.group) < groups.len() {
            fold_steps(
                groups[group_index(groups, b.group)].items,
                m,
                |a: SnapView, item: ItemDefView|
                    fill_from_shared(s, a, b.group, item.key, b.shared_group, item.key),
            )
        } else {
            Ok(m)
        },
    }
}

/// The configuration that a draft makes: its values, and shared values where it has none.
pub open spec fn materialised(
    s: State,
    id: Seq<char>,
    groups: Seq<GroupDefView>,
    draft: DraftView,
) -> Result<SnapView, ErrorView> {
    fold_steps(
        refs(s, id),
        draft_values(draft),
        |m: SnapView, b: RefBindingView| resolve_ref(s, groups, m, b),
    )
}

#[verifier::opaque]
pub open spec fn publish(
    s: State,
    id: Seq<char>,
    branch: Seq<char>,
    comment: Seq<char>,
    request_id: Seq<char>,
    ts: i64,
    operator: Seq<char>,
) -> Outcome {
    match need::<BranchState>(s, k_branch_state(id, branch), branch_missing_err(id, branch)) {
        Err(e) => Err(e),
        Ok(st) => match need::<Structure>(s, k_struct(id), project_missing(id)) {
            Err(e) => Err(e),
            Ok(structure) => if st.last_request_id == Some(request_id) {
                done(s)
            } else if st.value_draft == DraftView::empty() {
                Err(err(ErrorKind::NoDraft, "no pending draft"@))
            } else if publish_errors(st.value_draft, structure).len() > 0 {
                Err(blocked_by(publish_errors(st.value_draft, structure)))
            } else {
                match materialised(s, id, structure.groups, st.value_draft) {
                    Err(e) => Err(e),
                    Ok(new) => match active_content(s, id, branch, st.active_version) {
                        Err(e) => Err(e),
                        Ok(old) => match next_number(st.active_version) {
                            Err(e) => Err(e),
                            Ok(vno) => Ok(
                                (
                                    with_version(
                                        s,
                                        id,
                                        branch,
                                        old,
                                        new,
                                        VersionRecordView {
                                            no: vno,
                                            structure_version: structure.version,
                                            created_at: ts,
                                            operator: operator_of(operator),
                                            comment,
                                            rollback_of: None,
                                            kind: VersionKind::Full,
                                            snapshot_ref: None,
                                            diff_ref: None,
                                            event_ty: Some(EventType::ValuePublish),
                                            gray: false,
                                        },
                                    ).insert(
                                        k_branch_state(id, branch),
                                        EntryView::Branch(
                                            BranchStateView {
                                                active_version: vno,
                                                last_request_id: Some(request_id),
                                                value_draft: Map::empty(),
                                                ..st
                                            },
                                        ),
                                    ),
                                    seq![
                                        PublishEventView {
                                            project: id,
                                            branch,
                                            version: vno,
                                            ty: EventType::ValuePublish,
                                            structure_version: structure.version,
                                            comment,
                                            request_id,
                                            changes: diff_of(old, new),
                                            gray: false,
                                        },
                                    ],
                                ),
                            ),
                        },
                    },
                }
            },
        },
    }
}

#[verifier::opaque]
pub open spec fn rollback(
    s: State,
    id: Seq<char>,
    branch: Seq<char>,
    to_version: u64,
    comment: Seq<char>,
    request_id: Seq<char>,
    ts: i64,
    operator: Seq<char>,
) -> Outcome {
    match need::<BranchState>(s, k_branch_state(id, branch), branch_missing_err(id, branch)) {
        Err(e) => Err(e),
        Ok(st) => if st.last_request_id == Some(request_id) {
            done(s)
        } else if to_version == 0 || to_version >= st.active_version {
            Err(
                validation_err(
                    "to_version "@ + dec(to_version as nat) + " must be 0 < v < active "@ + dec(
                        st.active_version as nat,
                    ),
                ),
            )
        } else {
            match snapshot(s, id, branch, to_version) {
                Err(e) => Err(e),
                Ok(new) => match snapshot(s, id, branch, st.active_version) {
                    Err(e) => Err(e),
                    Ok(old) => match next_number(st.active_version) {
                        Err(e) => Err(e),
                        Ok(vno) => Ok(
                            (
                                with_version(
                                    s,
                                    id,
                                    branch,
                                    old,
                                    new,
                                    VersionRecordView {
                                        no: vno,
                                        structure_version: st.structure_version,
                                        created_at: ts,
                                        operator: operator_of(operator),
                                        comment,
                                        rollback_of: Some(to_version),
                                        kind: VersionKind::Full,
                                        snapshot_ref: None,
                                        diff_ref: None,
                                        event_ty: Some(EventType::Rollback),
                                        gray: false,
                                    },
                                ).insert(
                                    k_branch_state(id, branch),
                                    EntryView::Branch(
                                        BranchStateView {
                                            active_version: vno,
                                            last_request_id: Some(request_id),
                                            ..st
                                        },
                                    ),
                                ),
                                seq![
                                    PublishEventView {
                                        project: id,
                                        branch,
                                        version: vno,
                                        ty: EventType::Rollback,
                                        structure_version: st.structure_version,
                                        comment,
                                        request_id,
                                        changes: diff_of(old, new),
                                        gray: false,
                                    },
                                ],
                            ),
                        ),
                    },
                },
            }
        },
    }
}

// ---------------------------------------------------------------------------------------------
// The shared library
// ---------------------------------------------------------------------------------------------

#[verifier::opaque]
pub open spec fn shared_draft_update(s: State, item: SharedItemView) -> Outcome {
    if item.group.len() == 0 || item.key.len() == 0 {
        Err(validation_err("shared item group/key required"@))
    } else if !is_key_name(item.group) || !is_key_name(item.key) {
        Err(validation_err("shared group/key 须为 1-128 位 [A-Za-z0-9._-]"@))
    } else if item.secret && item.ty != ValueType::Secret {
        Err(validation_err("secret 共享项 type 必须为 secret"@))
    } else if !item.secret && item.ty == ValueType::Secret {
        Err(validation_err("type=secret 的共享项必须标记 secret=true"@))
    } else if long_description(item.description) {
        Err(validation_err("shared item description too long (max 200)"@))
    } else if utf8_len(shared_text(item)) > MAX_VALUE_BYTES {
        Err(limit_err("shared item too large"@))
    } else {
        done(s.insert(k_shared_draft(item.group, item.key), EntryView::Shared(item)))
    }
}

/// The branch at its next version, with one value changed.
pub open spec fn cascade_branch(
    a: Progress,
    id: Seq<char>,
    branch: Seq<char>,
    group: Seq<char>,
    key: Seq<char>,
    value: ValueView,
    comment: Seq<char>,
    request_id: Seq<char>,
    ts: i64,
) -> Result<Progress, ErrorView> {
    match need::<BranchState>(
        a.0,
        k_branch_state(id, branch),
        internal_err("branch state missing"@),
    ) {
        Err(e) => Err(e),
        Ok(st) => match active_content(a.0, id, branch, st.active_version) {
            Err(e) => Err(e),
            Ok(old) => match next_number(st.active_version) {
                Err(e) => Err(e),
                Ok(vno) => {
                    let new = put_item(old, group, key, value);
                    Ok(
                        (
                            with_version(
                                a.0,
                                id,
                                branch,
                                old,
                                new,
                                VersionRecordView {
                                    no: vno,
                                    structure_version: st.structure_version,
                                    created_at: ts,
                                    operator: "shared"@,
                                    comment,
                                    rollback_of: None,
                                    kind: VersionKind::Full,
                                    snapshot_ref: None,
                                    diff_ref: None,
                                    event_ty: Some(EventType::SharedCascade),
                                    gray: false,
                                },
                            ).insert(
                                k_branch_state(id, branch),
                                EntryView::Branch(BranchStateView { active_version: vno, ..st }),
                            ),
                            a.1.push(
                                PublishEventView {
                                    project: id,
                                    branch,
                                    version: vno,
                                    ty: EventType::SharedCascade,
                                    structure_version: st.structure_version,
                                    comment,
                                    request_id,
                                    changes: diff_of(old, new),
                                    gray: false,
                                },
                            ),
                        ),
                    )
                },
            },
        },
    }
}

/// All branches of a project with one value changed.
pub open spec fn cascade(
    a: Progress,
    id: Seq<char>,
    group: Seq<char>,
    key: Seq<char>,
    value: ValueView,
    comment: Seq<char>,
    request_id: Seq<char>,
    ts: i64,
) -> Result<Progress, ErrorView> {
    fold_steps(
        branches(a.0, id),
        a,
        |p: Progress, b: Seq<char>|
            cascade_branch(p, id, b, group, key, value, comment, request_id, ts),
    )
}

/// The parts of a key behind a prefix and one more character, where there are `n` of them.
pub open spec fn target(k: Seq<char>, prefix: Seq<char>, n: int) -> Option<Seq<Seq<char>>> {
    if k.len() > prefix.len() && split_on(k.skip((prefix.len() + 1) as int), '/').len() == n {
        Some(split_on(k.skip((prefix.len() + 1) as int), '/'))
    } else {
        None
    }
}

/// Follows one reference to a shared item.
pub open spec fn cascade_item_row(
    a: Progress,
    row: (Seq<char>, EntryView),
    item: SharedItemView,
    comment: Seq<char>,
    request_id: Seq<char>,
    ts: i64,
) -> Result<Progress, ErrorView> {
    match target(row.0, k_idx_ref(item.group, item.key), 3) {
        Some(parts) => cascade(
            a,
            parts[0],
            parts[1],
            parts[2],
            item.value,
            comment,
            request_id,
            ts,
        ),
        None => Ok(a),
    }
}

/// Follows one reference to a shared group, where the structure of the project has the item.
pub open spec fn cascade_group_row(
    a: Progress,
    row: (Seq<char>, EntryView),
    item: SharedItemView,
    comment: Seq<char>,
    request_id: Seq<char>,
    ts: i64,
) -> Result<Progress, ErrorView> {
    match target(row.0, k_idx_refg(item.group), 2) {
        Some(parts) => match read::<Structure>(a.0, k_struct(parts[0])) {
            Err(e) => Err(e),
            Ok(structure) => if structure is Some && has_item(
                structure->0.groups,
                parts[1],
                item.key,
            ) {
                cascade(a, parts[0], parts[1], item.key, item.value, comment, request_id, ts)
            } else {
                Ok(a)
            },
        },
        None => Ok(a),
    }
}

/// Publishes one shared item and advances the branches that refer to it.
pub open spec fn shared_step(
    a: Progress,
    item: SharedItemView,
    comment: Seq<char>,
    request_id: Seq<char>,
    ts: i64,
) -> Result<Progress, ErrorView> {
    match read::<SharedItem>(a.0, k_shared(item.group, item.key)) {
        Err(e) => Err(e),
        Ok(prev) => match next_number(
            match prev {
                Some(p) => p.version,
                None => 0,
            },
        ) {
            Err(e) => Err(e),
            Ok(version) => {
                let s = a.0.insert(
                    k_shared(item.group, item.key),
                    EntryView::Shared(SharedItemView { version, ..item }),
                ).remove(k_shared_draft(item.group, item.key));
                match fold_steps(
                    scan(s, k_idx_ref(item.group, item.key)),
                    (s, a.1),
                    |p: Progress, row: (Seq<char>, EntryView)|
                        cascade_item_row(p, row, item, comment, request_id, ts),
                ) {
                    Err(e) => Err(e),
                    Ok(b) => fold_steps(
                        scan(b.0, k_idx_refg(item.group)),
                        b,
                        |p: Progress, row: (Seq<char>, EntryView)|
                            cascade_group_row(p, row, item, comment, request_id, ts),
                    ),
                }
            },
        },
    }
}

#[verifier::opaque]
pub open spec fn shared_publish(
    s: State,
    comment: Seq<char>,
    request_id: Seq<char>,
    ts: i64,
) -> Outcome {
    let drafts = shared_under(s, K_SHARED_DRAFT@);
    if drafts.len() == 0 {
        Err(err(ErrorKind::NoDraft, "no shared draft"@))
    } else {
        fold_steps(
            drafts,
            (s, Seq::empty()),
            |a: Progress, item: SharedItemView| shared_step(a, item, comment, request_id, ts),
        )
    }
}

/// Whether a published item of the shared group fits an item of the group of the structure.
pub open spec fn some_match(s: State, shared_group: Seq<char>, g: GroupDefView) -> bool {
    exists|k: Seq<char>|
        s.contains_key(k) && k_shared_prefix(shared_group).is_prefix_of(k) && match_at(
            #[trigger] s[k],
            shared_group,
            g,
        )
}

pub open spec fn match_at(e: EntryView, shared_group: Seq<char>, g: GroupDefView) -> bool {
    match e {
        EntryView::Shared(item) => item.group == shared_group && def_in(
            g.items,
            g.items.len(),
            item.key,
        ) is Some,
        _ => false,
    }
}

/// The key that marks a reference of a project in the index of the shared library.
pub open spec fn mark_of(id: Seq<char>, b: RefBindingView) -> Seq<char> {
    match b.item_key {
        Some(key) => k_ref_index(b.shared_group, b.shared_key, id, b.group, key),
        None => k_group_ref_index(b.shared_group, id, b.group),
    }
}

/// The state without a reference and its mark.
pub open spec fn without_ref(
    s: State,
    id: Seq<char>,
    group: Seq<char>,
    item_key: Option<Seq<char>>,
) -> Result<State, ErrorView> {
    match read::<RefBinding>(s, k_ref(id, group, item_key)) {
        Err(e) => Err(e),
        Ok(None) => Ok(s),
        Ok(Some(b)) => Ok(s.remove(k_ref(id, group, item_key)).remove(mark_of(id, b))),
    }
}

/// The state with a reference and its mark, in the place of the reference that was there. The mark of that
/// one goes with it: a publication of the shared library reaches the places that refer to an item.
pub open spec fn with_ref(s: State, id: Seq<char>, b: RefBindingView) -> Outcome {
    match without_ref(s, id, b.group, b.item_key) {
        Err(e) => Err(e),
        Ok(t) => done(
            t.insert(k_ref(id, b.group, b.item_key), EntryView::Ref(b)).insert(
                mark_of(id, b),
                EntryView::Text("1"@),
            ),
        ),
    }
}

#[verifier::opaque]
pub open spec fn ref_bind(s: State, id: Seq<char>, b: RefBindingView) -> Outcome {
    if !is_key_name(b.shared_group) || !is_key_name(b.shared_key) {
        Err(validation_err("shared group/key 须为 1-128 位 [A-Za-z0-9._-]"@))
    } else {
        match need::<Structure>(s, k_struct(id), project_missing(id)) {
            Err(e) => Err(e),
            Ok(structure) => {
                let i = group_index(structure.groups, b.group);
                if i >= structure.groups.len() {
                    Err(validation_err("group "@ + b.group + " not in project structure"@))
                } else {
                    let g = structure.groups[i];
                    match b.item_key {
                        Some(key) => if def_in(g.items, g.items.len(), key) is None {
                            Err(
                                validation_err(
                                    "item "@ + b.group + "/"@ + key + " not in project structure"@,
                                ),
                            )
                        } else {
                            match need::<SharedItem>(
                                s,
                                k_shared(b.shared_group, b.shared_key),
                                validation_err(
                                    "shared item "@ + b.shared_group + "/"@ + b.shared_key
                                        + " not published"@,
                                ),
                            ) {
                                Err(e) => Err(e),
                                Ok(_) => with_ref(s, id, b),
                            }
                        },
                        None => if !some_match(s, b.shared_group, g) {
                            Err(
                                validation_err(
                                    "shared group "@ + b.shared_group
                                        + " has no published item matching structure group "@
                                        + b.group,
                                ),
                            )
                        } else {
                            with_ref(s, id, b)
                        },
                    }
                }
            },
        }
    }
}

#[verifier::opaque]
pub open spec fn ref_unbind(
    s: State,
    id: Seq<char>,
    group: Seq<char>,
    item_key: Option<Seq<char>>,
) -> Outcome {
    match without_ref(s, id, group, item_key) {
        Err(e) => Err(e),
        Ok(t) => done(t),
    }
}

// ---------------------------------------------------------------------------------------------
// Sessions, accounts and the audit trail
// ---------------------------------------------------------------------------------------------

pub open spec fn admin_session(
    token_hash: Seq<char>,
    issued_at: i64,
    expires_at: Option<i64>,
) -> AdminSessionView {
    AdminSessionView {
        token_hash,
        issued_at,
        expires_at,
        device_id: "cli"@,
        principal: PrincipalView::Admin,
    }
}

#[verifier::opaque]
pub open spec fn session_login(
    s: State,
    token_hash: Seq<char>,
    issued_at: i64,
    expires_at: Option<i64>,
) -> Outcome {
    match read::<AdminSession>(s, K_SESSION@) {
        Err(e) => Err(e),
        Ok(Some(_)) => Err(err(ErrorKind::SessionInUse, "已有管理员在线"@)),
        Ok(None) => done(
            s.insert(
                K_SESSION@,
                EntryView::Session(admin_session(token_hash, issued_at, expires_at)),
            ),
        ),
    }
}

/// The session under `key` with a new end.
#[verifier::opaque]
pub open spec fn prolong(
    s: State,
    key: Seq<char>,
    expires_at: Option<i64>,
    missing: ErrorView,
) -> Outcome {
    match need::<AdminSession>(s, key, missing) {
        Err(e) => Err(e),
        Ok(session) => done(
            s.insert(key, EntryView::Session(AdminSessionView { expires_at, ..session })),
        ),
    }
}

/// The state without the sessions of the administrator.
pub open spec fn without_admin_sessions(s: State) -> State {
    s.remove_keys(Set::new(|k: Seq<char>| k == K_SESSION@ || K_SESSIONS@.is_prefix_of(k)))
}

#[verifier::opaque]
pub open spec fn account_create(
    s: State,
    project: Seq<char>,
    username: Seq<char>,
    salt: Seq<char>,
    password_hash: Seq<char>,
    ts: i64,
) -> Outcome {
    if !is_account_name(username) {
        Err(
            err(
                ErrorKind::Validation,
                "用户名须为 2-64 位 [A-Za-z0-9_-] 且不可为 admin"@,
            ),
        )
    } else {
        match need::<Project>(
            s,
            k_project(project),
            err(ErrorKind::NotFound, "项目 "@ + project + " 不存在"@),
        ) {
            Err(e) => Err(e),
            Ok(_) => match read::<ProjectAdminAccount>(s, k_project_admin(username)) {
                Err(e) => Err(e),
                Ok(Some(_)) => Err(err(ErrorKind::Conflict, "账号已存在"@)),
                Ok(None) => done(
                    s.insert(
                        k_project_admin(username),
                        EntryView::Account(
                            ProjectAdminAccountView {
                                username,
                                project,
                                salt,
                                password_hash,
                                created_at: ts,
                            },
                        ),
                    ),
                ),
            },
        }
    }
}

pub open spec fn account_missing() -> ErrorView {
    err(ErrorKind::NotFound, "账号不存在"@)
}

/// The state without the sessions of a project administrator.
pub open spec fn without_sessions_of(s: State, username: Seq<char>) -> State {
    s.remove_keys(Set::new(|k: Seq<char>| session_of(username, k)))
}

#[verifier::opaque]
pub open spec fn account_delete(s: State, username: Seq<char>) -> Outcome {
    match need::<ProjectAdminAccount>(s, k_project_admin(username), account_missing()) {
        Err(e) => Err(e),
        Ok(_) => done(without_sessions_of(s, username).remove(k_project_admin(username))),
    }
}

#[verifier::opaque]
pub open spec fn account_set_password(
    s: State,
    username: Seq<char>,
    salt: Seq<char>,
    password_hash: Seq<char>,
) -> Outcome {
    match need::<ProjectAdminAccount>(s, k_project_admin(username), account_missing()) {
        Err(e) => Err(e),
        Ok(account) => done(
            without_sessions_of(
                s.insert(
                    k_project_admin(username),
                    EntryView::Account(ProjectAdminAccountView { salt, password_hash, ..account }),
                ),
                username,
            ),
        ),
    }
}

/// A session of the project administrator under `key`.
#[verifier::opaque]
pub open spec fn account_login(
    s: State,
    key: Seq<char>,
    username: Seq<char>,
    token_hash: Seq<char>,
    issued_at: i64,
    expires_at: Option<i64>,
    device_id: Seq<char>,
) -> Outcome {
    match need::<ProjectAdminAccount>(s, k_project_admin(username), account_missing()) {
        Err(e) => Err(e),
        Ok(account) => done(
            s.insert(
                key,
                EntryView::Session(
                    AdminSessionView {
                        token_hash,
                        issued_at,
                        expires_at,
                        device_id,
                        principal: PrincipalView::ProjectAdmin {
                            username,
                            project: account.project,
                        },
                    },
                ),
            ),
        ),
    }
}

#[verifier::opaque]
pub open spec fn account_single_login(
    s: State,
    username: Seq<char>,
    token_hash: Seq<char>,
    issued_at: i64,
    expires_at: Option<i64>,
    device_id: Seq<char>,
) -> Outcome {
    match read::<AdminSession>(s, k_pa_session(username)) {
        Err(e) => Err(e),
        Ok(Some(_)) => Err(err(ErrorKind::SessionInUse, "该账号已有会话在线"@)),
        Ok(None) => account_login(
            s,
            k_pa_session(username),
            username,
            token_hash,
            issued_at,
            expires_at,
            device_id,
        ),
    }
}

#[verifier::opaque]
pub open spec fn audit_append(s: State, entry: AuditEntryView) -> Outcome {
    match read::<u64>(s, K_AUDIT_SEQ@) {
        Err(e) => Err(e),
        Ok(prev) => match next_number(
            match prev {
                Some(n) => n,
                None => 0,
            },
        ) {
            Err(e) => Err(e),
            Ok(seq) => done(
                s.insert(k_audit(seq), EntryView::Audit(AuditEntryView { seq, ..entry })).insert(
                    K_AUDIT_SEQ@,
                    EntryView::Counter(seq),
                ),
            ),
        },
    }
}

/// What a command does, applied at the time `now`.
pub open spec fn step(s: State, c: CommandView, now: i64) -> Outcome {
    match c {
        CommandView::ProjectCreate { name, operator, ts } => project_create(
            s,
            name,
            time_of(ts, now),
        ),
        CommandView::ProjectDelete { id, operator } => project_delete(s, id),
        CommandView::BranchCreate { project, name, source, operator, ts } => branch_create(
            s,
            project,
            name,
            source,
            time_of(ts, now),
        ),
        CommandView::BranchDelete { project, name, operator } => branch_delete(s, project, name),
        CommandView::StructureDraftSet { project, base_version, groups, operator } =>
            structure_draft_set(s, project, base_version, groups),
        CommandView::PublishStructure { project, comment, request_id, operator, ts } =>
            publish_structure(s, project, comment, request_id, time_of(ts, now), operator),
        CommandView::DraftUpdate { project, branch, updates, deletes, operator, ts } =>
            draft_update(s, project, branch, updates, deletes, time_of(ts, now)),
        CommandView::Publish { project, branch, comment, request_id, operator, ts } => publish(
            s,
            project,
            branch,
            comment,
            request_id,
            time_of(ts, now),
            operator,
        ),
        CommandView::Rollback { project, branch, to_version, comment, request_id, operator, ts } =>
            rollback(
                s,
                project,
                branch,
                to_version,
                comment,
                request_id,
                time_of(ts, now),
                operator,
            ),
        CommandView::SharedDraftUpdate { item, operator } => shared_draft_update(s, item),
        CommandView::SharedPublish { comment, request_id, operator, ts } => shared_publish(
            s,
            comment,
            request_id,
            time_of(ts, now),
        ),
        CommandView::RefBind { project, binding, operator } => ref_bind(s, project, binding),
        CommandView::RefUnbind { project, group, item_key, operator } => ref_unbind(
            s,
            project,
            group,
            item_key,
        ),
        CommandView::SessionLogin { token_hash, issued_at, expires_at } => session_login(
            s,
            token_hash,
            issued_at,
            expires_at,
        ),
        CommandView::SessionLogout => done(s.remove(K_SESSION@)),
        CommandView::SessionHeartbeat { expires_at } => prolong(
            s,
            K_SESSION@,
            expires_at,
            err(ErrorKind::SessionExpired, "未登录"@),
        ),
        CommandView::MultiSessionLogin { token_hash, issued_at, expires_at, session_id } => done(
            s.insert(
                k_admin_session(session_id),
                EntryView::Session(admin_session(token_hash, issued_at, expires_at)),
            ),
        ),
        CommandView::MultiSessionLogout { session_id } => done(s.remove(k_admin_session(session_id))),
        CommandView::MultiSessionLogoutAll => done(without_admin_sessions(s)),
        CommandView::MultiSessionHeartbeat { session_id, expires_at } => prolong(
            s,
            k_admin_session(session_id),
            expires_at,
            err(ErrorKind::SessionExpired, "会话不存在"@),
        ),
        CommandView::ProjectAdminCreate { project, username, salt, password_hash, ts } =>
            account_create(s, project, username, salt, password_hash, time_of(ts, now)),
        CommandView::ProjectAdminDelete { username } => account_delete(s, username),
        CommandView::ProjectAdminSetPassword { username, salt, password_hash } =>
            account_set_password(s, username, salt, password_hash),
        CommandView::PaSessionLogin { username, token_hash, issued_at, expires_at, device_id } =>
            account_single_login(s, username, token_hash, issued_at, expires_at, device_id),
        CommandView::PaSessionLogout { username } => done(s.remove(k_pa_session(username))),
        CommandView::PaSessionHeartbeat { username, expires_at } => prolong(
            s,
            k_pa_session(username),
            expires_at,
            err(ErrorKind::SessionExpired, "会话不存在"@),
        ),
        CommandView::MultiPaSessionLogin {
            username,
            token_hash,
            issued_at,
            expires_at,
            device_id,
            session_id,
        } => account_login(
            s,
            k_pa_session_with(username, session_id),
            username,
            token_hash,
            issued_at,
            expires_at,
            device_id,
        ),
        CommandView::AdminSetPassword { password_hash } => done(
            s.insert(K_ADMIN_PW@, EntryView::Text(password_hash)),
        ),
        CommandView::AuditAppend { entry } => audit_append(s, entry),
        CommandView::RotateMasterKey { kek, kek_enc } => done(s),
    }
}

// ---------------------------------------------------------------------------------------------
// Upkeep
// ---------------------------------------------------------------------------------------------

pub open spec fn row_number(row: (Seq<char>, EntryView)) -> Seq<u64> {
    match number_of(row.0.skip(K_AUDIT@.len() as int), u64::MAX as nat) {
        Some(n) => seq![n as u64],
        None => Seq::empty(),
    }
}

/// The numbers of the audit trail, in ascending order.
pub open spec fn audit_numbers(s: State) -> Seq<u64> {
    let rows = scan(s, K_AUDIT@);
    sorted::<u64>(gather(rows.len(), |i: int| row_number(rows[i])))
}

/// The number of audit entries that go when the newest `keep` stay.
pub open spec fn audit_excess(s: State, keep: nat) -> nat {
    if audit_numbers(s).len() > keep {
        (audit_numbers(s).len() - keep) as nat
    } else {
        0
    }
}

/// The state with the newest `keep` audit entries.
pub open spec fn audit_pruned(s: State, keep: nat) -> State {
    delete_all(s, Seq::new(audit_excess(s, keep), |i: int| k_audit(audit_numbers(s)[i])))
}

/// The newest version that is older than the last `keep` ones.
pub open spec fn pivot(hist: Seq<VersionRecordView>, keep: nat) -> u64 {
    hist[hist.len() - keep - 1].no
}

/// Whether pruning takes the record of the version away: it is older than the last `keep`, not the
/// active one, and not the checkpoint that later content is rebuilt from.
pub open spec fn record_goes(pivot: u64, active: u64, no: u64) -> bool {
    no <= pivot && no != active && no != base_of(pivot as int)
}

/// Whether pruning takes the content of the version away: nothing that stays is rebuilt from it.
pub open spec fn content_goes(pivot: u64, active: u64, no: u64) -> bool {
    no < base_of(pivot as int) && no != active
}

/// Whether pruning deletes the key.
pub open spec fn pruned_key(
    id: Seq<char>,
    branch: Seq<char>,
    hist: Seq<VersionRecordView>,
    pivot: u64,
    active: u64,
    k: Seq<char>,
) -> bool {
    exists|i: int|
        0 <= i < hist.len() && version_owns(id, branch, (#[trigger] hist[i]).no, pivot, active, k)
}

pub open spec fn version_owns(
    id: Seq<char>,
    branch: Seq<char>,
    no: u64,
    pivot: u64,
    active: u64,
    k: Seq<char>,
) -> bool {
    ||| record_goes(pivot, active, no) && k == k_version(id, branch, no)
    ||| content_goes(pivot, active, no) && (k == k_snapshot(id, branch, no) || k == k_diff(
        id,
        branch,
        no,
    ))
}

/// The number of records that go.
pub open spec fn records_gone(hist: Seq<VersionRecordView>, pivot: u64, active: u64) -> nat
    decreases hist.len(),
{
    if hist.len() == 0 {
        0
    } else {
        records_gone(hist.drop_last(), pivot, active) + if record_goes(
            pivot,
            active,
            hist.last().no,
        ) {
            1nat
        } else {
            0nat
        }
    }
}

/// The state with the active version, the last `keep` versions and the checkpoint that they are rebuilt
/// from, and the number of records that went.
pub open spec fn versions_pruned(s: State, id: Seq<char>, branch: Seq<char>, keep: nat) -> Result<
    (State, nat),
    ErrorView,
> {
    match need::<BranchState>(s, k_branch_state(id, branch), not_found_err("branch "@ + branch)) {
        Err(e) => Err(e),
        Ok(st) => {
            let hist = history(s, id, branch);
            if hist.len() <= keep {
                Ok((s, 0))
            } else {
                let p = pivot(hist, keep);
                Ok(
                    (
                        s.remove_keys(
                            Set::new(
                                |k: Seq<char>|
                                    pruned_key(id, branch, hist, p, st.active_version, k),
                            ),
                        ),
                        records_gone(hist, p, st.active_version),
                    ),
                )
            }
        },
    }
}

} // verus!
