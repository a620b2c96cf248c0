//! Pruning, restoring and the audit trail.
use vstd::prelude::*;

use crate::command::{CommandView, DraftUpdateItemView};
use crate::diff::put_item;
use crate::gather::gather;
use crate::keys::{
    K_ADMIN_PW, K_AUDIT, K_AUDIT_SEQ, K_IDX_REF, K_IDX_REFG, K_PROJECT, K_SESSION, K_SESSIONS,
    K_SHARED_DRAFT, K_STRUCT_DRAFT, K_VERSION, k_admin_session, k_audit, k_branch_prefix,
    k_branch_state, k_diff, k_group_ref_index, k_idx_pname, k_idx_ref, k_idx_refg, k_pa_session,
    k_pa_session_with, k_pa_sessions_prefix, k_project, k_project_admin, k_ref, k_ref_index,
    k_shared, k_shared_draft, k_snapshot, k_struct, k_struct_draft, k_version, k_versions_prefix,
    padded, zeros,
};
use crate::laws::paths::{
    in_project, is_part, law_state_key_is_no_version_key, law_version_keys_differ,
    lemma_branch_keys, lemma_branch_parts, lemma_in_project, lemma_parts_around,
    lemma_prefix_of_sum, lemma_project_parts, parts, version_key_of,
};
use crate::laws::projects::lemma_structure_parts;
use crate::laws::sound::{
    branch_at, in_place, lemma_base, lemma_rebuild_content, rebuilds, same_at, same_content, sound,
};
use crate::laws::steps::{lemma_branch_names, lemma_fold_keeps};
use crate::laws::versions::extended;
use crate::model::{
    AuditEntryView, BranchStateView, EntryView, EventType, GroupDefView, Project, ProjectView,
    RefBinding, RefBindingView, SharedItem, SharedItemView, SnapView, Structure,
    StructureDraftView, StructureView, ValueView, VersionKind, VersionRecord, VersionRecordView,
    new_branch,
};
use crate::ordmap::{has_row, is_listing, lemma_listing_drop_last, lemma_listing_exists};
use crate::sort::{Ranked, lemma_sorted_multiset, sorted};
use crate::step::{
    accounts, active_content, base_of, branches, fold_steps, history, read, row_version,
    shared_under, snapshot,
};
use crate::store::{State, put_all, scan, under};
use crate::text::{dec, dec_value, is_digit, lemma_dec_value, lemma_split_single};
use crate::transition::{
    Progress, account_create, account_delete, account_key, account_login, account_owns,
    account_set_password, account_single_login, audit_append, branch_create, branch_delete,
    cascade, cascade_branch, cascade_group_row, cascade_item_row, draft_update, goes_with_project,
    kept_draft, mark_of, materialised, next_number, of_branch, of_project, operator_of, pivot,
    project_create, project_delete, prolong, pruned_key, publish, publish_structure, ref_bind,
    ref_unbind, rollback, session_login, session_of, shared_draft_update, shared_publish,
    shared_step, step, structure_draft_set, structure_step, target, time_of, version_owns,
    versions_pruned, with_ref, without_ref,
};

verus! {

// ---------------------------------------------------------------------------------------------
// Restoring
// ---------------------------------------------------------------------------------------------

/// Restoring a dump gives the state back.
pub proof fn law_restore_gives_back_the_dump(s: State, rows: Seq<(Seq<char>, EntryView)>)
    requires
        is_listing(s, rows),
    ensures
        put_all(State::empty(), rows) == s,
    decreases rows.len(),
{
    if rows.len() == 0 {
        assert forall|k: Seq<char>| !s.contains_key(k) by {
            if s.contains_key(k) {
                assert(has_row(rows, k));
            }
        }
        assert(s =~= State::empty());
    } else {
        let last = rows.last();
        lemma_listing_drop_last(s, rows);
        law_restore_gives_back_the_dump(s.remove(last.0), rows.drop_last());
        assert(s.contains_key(rows[rows.len() - 1].0));
        assert(s =~= s.remove(last.0).insert(last.0, last.1));
    }
}

// ---------------------------------------------------------------------------------------------
// Pruning
// ---------------------------------------------------------------------------------------------

/// An element of what is gathered stands in one of the parts.
pub proof fn lemma_gather_member<T>(n: nat, f: spec_fn(int) -> Seq<T>, x: T) -> (i: int)
    requires
        gather(n, f).contains(x),
    ensures
        0 <= i < n,
        f(i).contains(x),
    decreases n,
{
    if n == 0 {
        0
    } else {
        let a = gather((n - 1) as nat, f);
        let b = f(n - 1);
        let j = choose|j: int| 0 <= j < (a + b).len() && (a + b)[j] == x;
        if j < a.len() {
            assert(a[j] == x);
            lemma_gather_member((n - 1) as nat, f, x)
        } else {
            assert(b[j - a.len()] == x);
            n - 1
        }
    }
}

/// An element of a sorted sequence is an element of the sequence.
pub proof fn lemma_sorted_member<T: Ranked>(s: Seq<T::V>, i: int)
    requires
        0 <= i < sorted::<T>(s).len(),
    ensures
        s.contains(sorted::<T>(s)[i]),
{
    broadcast use vstd::seq_lib::group_to_multiset_ensures;

    lemma_sorted_multiset::<T>(s);
    let x = sorted::<T>(s)[i];
    assert(sorted::<T>(s).contains(x));
    assert(sorted::<T>(s).to_multiset().count(x) > 0);
    assert(s.to_multiset().count(x) > 0);
}

/// The records of a branch of a sound state belong to its versions.
pub proof fn lemma_history_numbers(s: State, id: Seq<char>, branch: Seq<char>, i: int)
    requires
        s.dom().finite(),
        sound(s),
        branch_at(s, id, branch) is Some,
        0 <= i < history(s, id, branch).len(),
    ensures
        1 <= history(s, id, branch)[i].no <= branch_at(s, id, branch)->0.active_version,
{
    lemma_branch_names(s, id, branch);
    let pre = k_versions_prefix(id, branch);
    let m = under(s, pre);
    let rows = scan(s, pre);
    assert(m.dom().subset_of(s.dom()));
    vstd::set_lib::lemma_set_subset_finite(s.dom(), m.dom());
    lemma_listing_exists(m);
    let f = |j: int| row_version(rows[j]);
    let all = gather(rows.len(), f);
    lemma_sorted_member::<VersionRecord>(all, i);
    let r = history(s, id, branch)[i];
    let j = lemma_gather_member(rows.len(), f, r);
    let k = rows[j].0;
    assert(m.contains_key(k));
    assert(s[k] == EntryView::Version(r));
    assert(in_place(k, s[k]));
    let (a, b) = choose|a: Seq<char>, b: Seq<char>|
        is_part(a) && is_part(b) && k == #[trigger] k_version(a, b, r.no);
    // The record belongs to this branch.
    let rest = k.skip(pre.len() as int);
    assert(k =~= pre + rest);
    reveal_strlit("/v/");
    reveal_strlit("v");
    assert(K_VERSION@ =~= seq!['/'] + "v"@ + seq!['/']);
    lemma_branch_parts(id, branch);
    lemma_split_single(id, '/');
    lemma_split_single(branch, '/');
    lemma_parts_around(k_branch_prefix(id, branch), "v"@, rest);
    lemma_branch_keys(a, b, r.no);
    let p = parts(k);
    assert(p[1] == id && p[3] == branch);
    assert(p[1] == a && p[3] == b);
    assert(s.contains_key(k_version(id, branch, r.no)));
}

/// Later versions do not have earlier bases.
proof fn lemma_base_grows(v: int, w: int)
    requires
        1 <= v <= w,
    ensures
        base_of(v) <= base_of(w),
        base_of(base_of(v)) == base_of(v),
{
    lemma_base(v);
    lemma_base(w);
}

/// Pruning keeps a sound state sound: the active version of every branch can still be read. Of the
/// branch that is pruned it keeps the records of the last versions, and the content of all versions from
/// the checkpoint that they are rebuilt from.
pub proof fn law_pruning_keeps_recent_versions(
    s: State,
    id: Seq<char>,
    branch: Seq<char>,
    keep: nat,
)
    requires
        s.dom().finite(),
        sound(s),
        versions_pruned(s, id, branch, keep) is Ok,
    ensures
        ({
            let t = versions_pruned(s, id, branch, keep)->Ok_0.0;
            let hist = history(s, id, branch);
            &&& sound(t)
            &&& branch_at(t, id, branch) == branch_at(s, id, branch)
            &&& hist.len() > keep ==> forall|v: u64|
                v >= base_of(pivot(hist, keep) as int) ==> #[trigger] snapshot(t, id, branch, v) == snapshot(
                    s,
                    id,
                    branch,
                    v,
                )
            &&& hist.len() > keep ==> forall|v: u64|
                v > pivot(hist, keep) ==> same_at(s, t, #[trigger] k_version(id, branch, v))
        }),
{
    assert(branch_at(s, id, branch) is Some);
    lemma_branch_names(s, id, branch);
    let st = branch_at(s, id, branch)->0;
    let active = st.active_version;
    let hist = history(s, id, branch);
    let t = versions_pruned(s, id, branch, keep)->Ok_0.0;
    if hist.len() > keep {
        let p = pivot(hist, keep);
        lemma_history_numbers(s, id, branch, hist.len() - keep - 1);
        lemma_base(p as int);
        let base = base_of(p as int);
        // What stays.
        assert forall|i: Seq<char>, b: Seq<char>| is_part(i) && is_part(b) implies same_at(
            s,
            t,
            #[trigger] k_branch_state(i, b),
        ) by {
            lemma_not_pruned(id, branch, hist, p, active, i, b, 0, k_branch_state(i, b));
        }
        assert forall|i: Seq<char>, b: Seq<char>, n: u64|
            is_part(i) && is_part(b) && !(i == id && b == branch && n < base)
                implies #[trigger] same_content(s, t, i, b, n) by {
            lemma_not_pruned(id, branch, hist, p, active, i, b, n, k_snapshot(i, b, n));
            lemma_not_pruned(id, branch, hist, p, active, i, b, n, k_diff(i, b, n));
        }
        assert forall|v: u64| v > p implies same_at(s, t, #[trigger] k_version(id, branch, v)) by {
            lemma_not_pruned(id, branch, hist, p, active, id, branch, v, k_version(id, branch, v));
        }
        // What can be read.
        assert forall|v: u64| v >= base implies #[trigger] snapshot(t, id, branch, v) == snapshot(
            s,
            id,
            branch,
            v,
        ) && rebuilds(t, id, branch, v) == rebuilds(s, id, branch, v) by {
            lemma_base(v as int);
            lemma_base_grows(base, v as int);
            lemma_base_grows(p as int, p as int);
            assert forall|n: u64| base_of(v as int) <= n <= v implies #[trigger] same_content(
                s,
                t,
                id,
                branch,
                n,
            ) by {}
            lemma_rebuild_content(s, t, id, branch, base_of(v as int), v as int);
            assert(same_content(s, t, id, branch, v));
        }
        assert(active >= base);
        assert(snapshot(t, id, branch, active) == snapshot(s, id, branch, active));
        assert forall|k: Seq<char>| #[trigger] t.contains_key(k) implies in_place(k, t[k]) by {
            assert(s.contains_key(k));
        }
        assert forall|i: Seq<char>, b: Seq<char>|
            is_part(i) && is_part(b) && (#[trigger] branch_at(t, i, b)) is Some implies t.contains_key(
            k_project(i),
        ) && (branch_at(t, i, b)->0.active_version > 0 ==> rebuilds(
            t,
            i,
            b,
            branch_at(t, i, b)->0.active_version,
        )) by {
            assert(same_at(s, t, k_branch_state(i, b)));
            assert(branch_at(s, i, b) is Some);
            assert(s.contains_key(k_project(i)));
            lemma_project_not_pruned(id, branch, hist, p, active, i);
            let v = branch_at(s, i, b)->0.active_version;
            if v > 0 && !(i == id && b == branch) {
                lemma_base(v as int);
                assert forall|n: u64| #[trigger] same_content(s, t, i, b, n) by {}
                lemma_rebuild_content(s, t, i, b, base_of(v as int), v as int);
            }
        }
        assert forall|i: Seq<char>, b: Seq<char>, n: u64|
            is_part(i) && is_part(b) && t.contains_key(#[trigger] k_version(i, b, n)) implies (
        branch_at(t, i, b) matches Some(x) && 1 <= n <= x.active_version) by {
            assert(s.contains_key(k_version(i, b, n)));
            assert(same_at(s, t, k_branch_state(i, b)));
        }
    }
}

/// The keys that pruning a branch does not take.
pub proof fn lemma_not_pruned(
    id: Seq<char>,
    branch: Seq<char>,
    hist: Seq<VersionRecordView>,
    p: u64,
    active: u64,
    i: Seq<char>,
    b: Seq<char>,
    n: u64,
    k: Seq<char>,
)
    requires
        is_part(id) && is_part(branch) && is_part(i) && is_part(b),
        p >= 1,
        ({
            ||| k == k_branch_state(i, b)
            ||| k == k_version(i, b, n) && !(i == id && b == branch && n <= p)
            ||| (k == k_snapshot(i, b, n) || k == k_diff(i, b, n)) && !(i == id && b == branch && n
                < base_of(p as int))
        }),
    ensures
        !pruned_key(id, branch, hist, p, active, k),
{
    if pruned_key(id, branch, hist, p, active, k) {
        let j = choose|j: int|
            0 <= j < hist.len() && version_owns(
                id,
                branch,
                (#[trigger] hist[j]).no,
                p,
                active,
                k,
            );
        let no = hist[j].no;
        assert(version_key_of(id, branch, no, k));
        law_state_key_is_no_version_key(i, b, id, branch, no);
        lemma_base(p as int);
        if k != k_branch_state(i, b) {
            assert(version_key_of(i, b, n, k));
            law_version_keys_differ(id, branch, no, i, b, n, k);
        }
    }
}

proof fn lemma_project_not_pruned(
    id: Seq<char>,
    branch: Seq<char>,
    hist: Seq<VersionRecordView>,
    p: u64,
    active: u64,
    i: Seq<char>,
)
    requires
        is_part(id) && is_part(branch) && is_part(i),
    ensures
        !pruned_key(id, branch, hist, p, active, k_project(i)),
{
    let k = k_project(i);
    lemma_project_parts(i);
    lemma_split_single(i, '/');
    assert(parts(k).len() == 2);
    if pruned_key(id, branch, hist, p, active, k) {
        let j = choose|j: int|
            0 <= j < hist.len() && version_owns(
                id,
                branch,
                (#[trigger] hist[j]).no,
                p,
                active,
                k,
            );
        lemma_branch_keys(id, branch, hist[j].no);
        assert(parts(k_version(id, branch, hist[j].no)).len() == 6);
        assert(parts(k_snapshot(id, branch, hist[j].no)).len() == 7);
        assert(parts(k_diff(id, branch, hist[j].no)).len() == 7);
    }
}

// ---------------------------------------------------------------------------------------------
// The audit trail
// ---------------------------------------------------------------------------------------------

/// Whether the key belongs to the audit trail.
pub open spec fn in_trail(k: Seq<char>) -> bool {
    K_AUDIT@.is_prefix_of(k)
}

/// The states agree on the audit trail.
#[verifier::opaque]
pub open spec fn same_trail(s: State, t: State) -> bool {
    forall|k: Seq<char>| in_trail(k) ==> #[trigger] same_at(s, t, k)
}

/// The number of the last entry.
pub open spec fn last_number(s: State) -> u64 {
    match read::<u64>(s, K_AUDIT_SEQ@) {
        Ok(Some(n)) => n,
        _ => 0,
    }
}

/// An entry gets the number after the last one, and all entries before it stay as they were.
pub proof fn law_audit_is_append_only(s: State, entry: AuditEntryView, now: i64, n: u64)
    requires
        step(s, CommandView::AuditAppend { entry }, now) is Ok,
        n <= last_number(s),
    ensures
        ({
            let t = step(s, CommandView::AuditAppend { entry }, now)->Ok_0.0;
            &&& last_number(t) == last_number(s) + 1
            &&& t.contains_key(k_audit(last_number(t)))
            &&& t[k_audit(last_number(t))] == EntryView::Audit(
                AuditEntryView { seq: last_number(t), ..entry },
            )
            &&& same_at(s, t, k_audit(n))
        }),
{
    reveal(audit_append);
    let t = step(s, CommandView::AuditAppend { entry }, now)->Ok_0.0;
    let next = (last_number(s) + 1) as u64;
    lemma_audit_keys(next, n);
    lemma_audit_keys(n, next);
}

/// The keys of two entries differ, and neither is that of the number of the last one.
pub proof fn lemma_audit_keys(a: u64, b: u64)
    ensures
        k_audit(a) != K_AUDIT_SEQ@,
        a != b ==> k_audit(a) != k_audit(b),
{
    reveal_strlit("audit/");
    reveal_strlit("audit/seq");
    lemma_padded_value(a as nat);
    lemma_padded_value(b as nat);
    let pa = padded(a as nat);
    assert(k_audit(a)[6] == pa[0]);
    assert(is_digit(pa[0]));
    assert(K_AUDIT_SEQ@[6] == 's');
    if k_audit(a) == k_audit(b) {
        assert(pa =~= k_audit(a).skip(6));
        assert(padded(b as nat) =~= k_audit(b).skip(6));
    }
}

/// Zeros before a number do not change it.
pub proof fn lemma_padded_value(n: nat)
    ensures
        dec_value(padded(n)) == n,
        padded(n).len() > 0,
        is_digit(padded(n)[0]),
{
    lemma_dec_value(n);
    if dec(n).len() < 20 {
        lemma_zeros_before((20 - dec(n).len()) as nat, dec(n));
    } else {
        assert(is_digit(dec(n)[0]));
    }
}

proof fn lemma_zeros_before(z: nat, s: Seq<char>)
    ensures
        dec_value(zeros(z) + s) == dec_value(s),
    decreases z + s.len(),
{
    let t = zeros(z) + s;
    if s.len() > 0 {
        assert(t.drop_last() =~= zeros(z) + s.drop_last());
        lemma_zeros_before(z, s.drop_last());
    } else if z > 0 {
        assert(t.drop_last() =~= zeros((z - 1) as nat) + s);
        lemma_zeros_before((z - 1) as nat, s);
        assert(t.last() == '0');
    } else {
        assert(t =~= s);
    }
}

/// A key that does not begin like those of the trail does not belong to it.
proof fn lemma_not_in_trail(k: Seq<char>)
    requires
        k.len() < 2 || k[0] != 'a' || k[1] != 'u',
    ensures
        !in_trail(k),
{
    reveal_strlit("audit/");
    if in_trail(k) {
        assert(K_AUDIT@[0] == k[0]);
        assert(K_AUDIT@[1] == k[1]);
    }
}

proof fn lemma_project_keys_not_in_trail(k: Seq<char>)
    requires
        in_project(k),
    ensures
        !in_trail(k),
{
    reveal_strlit("p/");
    assert(K_PROJECT@[0] == k[0]);
    lemma_not_in_trail(k);
}

/// The keys outside of the projects that do not belong to the trail.
proof fn lemma_others_not_in_trail(
    a: Seq<char>,
    b: Seq<char>,
    c: Seq<char>,
    d: Seq<char>,
    e: Seq<char>,
)
    ensures
        !in_trail(k_idx_pname(a)),
        !in_trail(k_shared(a, b)),
        !in_trail(k_shared_draft(a, b)),
        !in_trail(K_SESSION@),
        !in_trail(k_admin_session(a)),
        !in_trail(k_pa_session(a)),
        !in_trail(k_pa_session_with(a, b)),
        !in_trail(k_project_admin(a)),
        !in_trail(K_ADMIN_PW@),
        !in_trail(k_ref_index(a, b, c, d, e)),
        !in_trail(k_group_ref_index(a, b, c)),
{
    reveal_strlit("idx/pname/");
    reveal_strlit("sh/");
    reveal_strlit("sh-draft/");
    reveal_strlit("sess/admin");
    reveal_strlit("sess/admin/");
    reveal_strlit("sess/pa/");
    reveal_strlit("adm/pa/");
    reveal_strlit("sess/admin-pw");
    reveal_strlit("idx/ref/");
    reveal_strlit("idx/refg/");
    lemma_not_in_trail(k_idx_pname(a));
    lemma_not_in_trail(k_shared(a, b));
    lemma_not_in_trail(k_shared_draft(a, b));
    lemma_not_in_trail(K_SESSION@);
    lemma_not_in_trail(k_admin_session(a));
    lemma_not_in_trail(k_pa_session(a));
    lemma_not_in_trail(k_pa_session_with(a, b));
    lemma_not_in_trail(k_project_admin(a));
    lemma_not_in_trail(K_ADMIN_PW@);
    lemma_not_in_trail(k_ref_index(a, b, c, d, e));
    lemma_not_in_trail(k_group_ref_index(a, b, c));
}

proof fn lemma_put_trail(s: State, a: State, k: Seq<char>, e: EntryView)
    requires
        same_trail(s, a),
        !in_trail(k),
    ensures
        same_trail(s, a.insert(k, e)),
{
    reveal(same_trail);
    assert forall|x: Seq<char>| in_trail(x) implies #[trigger] same_at(s, a.insert(k, e), x) by {
        assert(same_at(s, a, x));
    }
}

proof fn lemma_remove_trail(s: State, a: State, k: Seq<char>)
    requires
        same_trail(s, a),
        !in_trail(k),
    ensures
        same_trail(s, a.remove(k)),
{
    reveal(same_trail);
    assert forall|x: Seq<char>| in_trail(x) implies #[trigger] same_at(s, a.remove(k), x) by {
        assert(same_at(s, a, x));
    }
}

/// One more version of a branch does not touch the trail.
proof fn lemma_extended_trail(
    s: State,
    id: Seq<char>,
    branch: Seq<char>,
    old: SnapView,
    new: SnapView,
    record: VersionRecordView,
    st: BranchStateView,
)
    ensures
        same_trail(s, extended(s, id, branch, old, new, record, st)),
{
    reveal(same_trail);
    lemma_in_project(id, branch, record.no);
    lemma_project_keys_not_in_trail(k_branch_state(id, branch));
    lemma_project_keys_not_in_trail(k_version(id, branch, record.no));
    lemma_project_keys_not_in_trail(k_snapshot(id, branch, record.no));
    lemma_project_keys_not_in_trail(k_diff(id, branch, record.no));
}

proof fn lemma_cascade_trail(
    s: State,
    a: Progress,
    id: Seq<char>,
    group: Seq<char>,
    key: Seq<char>,
    value: ValueView,
    comment: Seq<char>,
    request_id: Seq<char>,
    ts: i64,
)
    requires
        same_trail(s, a.0),
    ensures
        cascade(a, id, group, key, value, comment, request_id, ts) matches Ok(b) ==> same_trail(s, b.0),
{
    reveal(same_trail);
    let f = |p: Progress, b: Seq<char>|
        cascade_branch(p, id, b, group, key, value, comment, request_id, ts);
    let p = |p: Progress| same_trail(s, p.0);
    assert forall|x: Progress, b: Seq<char>| p(x) && (#[trigger] f(x, b)) is Ok implies p(
        f(x, b)->Ok_0,
    ) by {
        let st = branch_at(x.0, id, b)->0;
        let old = active_content(x.0, id, b, st.active_version)->Ok_0;
        let vno = (st.active_version + 1) as u64;
        lemma_extended_trail(
            x.0,
            id,
            b,
            old,
            put_item(old, group, key, value),
            VersionRecordView {
                no: vno,
                structure_version: st.structure_version,
                created_at: ts,
                operator: "shared"@,
                comment,
                rollback_of: None,
                kind: VersionKind::Full,
                snapshot_ref: None,
                diff_ref: None,
                event_ty: Some(EventType::SharedCascade),
                gray: false,
            },
            BranchStateView { active_version: vno, ..st },
        );
        let t = f(x, b)->Ok_0.0;
        assert forall|k: Seq<char>| in_trail(k) implies #[trigger] same_at(s, t, k) by {
            assert(same_at(s, x.0, k));
            assert(same_at(x.0, t, k));
        }
    }
    lemma_fold_keeps(branches(a.0, id), a, f, p);
}

proof fn lemma_shared_trail(
    s: State,
    a: Progress,
    item: SharedItemView,
    comment: Seq<char>,
    request_id: Seq<char>,
    ts: i64,
)
    requires
        same_trail(s, a.0),
    ensures
        shared_step(a, item, comment, request_id, ts) matches Ok(b) ==> same_trail(s, b.0),
{
    reveal(same_trail);
    if shared_step(a, item, comment, request_id, ts) is Ok {
        let prev = read::<SharedItem>(a.0, k_shared(item.group, item.key))->Ok_0;
        let version = next_number(
            match prev {
                Some(p) => p.version,
                None => 0,
            },
        )->Ok_0;
        let e = EntryView::Shared(SharedItemView { version, ..item });
        let t = a.0.insert(k_shared(item.group, item.key), e).remove(
            k_shared_draft(item.group, item.key),
        );
        lemma_others_not_in_trail(item.group, item.key, item.key, item.key, item.key);
        assert forall|k: Seq<char>| in_trail(k) implies #[trigger] same_at(s, t, k) by {
            assert(same_at(s, a.0, k));
        }
        let p = |p: Progress| same_trail(s, p.0);
        let f = |p: Progress, row: (Seq<char>, EntryView)|
            cascade_item_row(p, row, item, comment, request_id, ts);
        let start: Progress = (t, a.1);
        assert forall|x: Progress, row: (Seq<char>, EntryView)| p(x) && (#[trigger] f(x, row))
            is Ok implies p(f(x, row)->Ok_0) by {
            match target(row.0, k_idx_ref(item.group, item.key), 3) {
                Some(q) => {
                    lemma_cascade_trail(
                        s,
                        x,
                        q[0],
                        q[1],
                        q[2],
                        item.value,
                        comment,
                        request_id,
                        ts,
                    );
                },
                None => {},
            }
        }
        assert(p(start));
        lemma_fold_keeps(scan(t, k_idx_ref(item.group, item.key)), start, f, p);
        let b = fold_steps(scan(t, k_idx_ref(item.group, item.key)), start, f)->Ok_0;
        let g = |p: Progress, row: (Seq<char>, EntryView)|
            cascade_group_row(p, row, item, comment, request_id, ts);
        assert forall|x: Progress, row: (Seq<char>, EntryView)| p(x) && (#[trigger] g(x, row))
            is Ok implies p(g(x, row)->Ok_0) by {
            match target(row.0, k_idx_refg(item.group), 2) {
                Some(q) => {
                    lemma_cascade_trail(
                        s,
                        x,
                        q[0],
                        q[1],
                        item.key,
                        item.value,
                        comment,
                        request_id,
                        ts,
                    );
                },
                None => {},
            }
        }
        assert(p(b));
        lemma_fold_keeps(scan(b.0, k_idx_refg(item.group)), b, g, p);
    }
}

/// Publishing leaves the trail alone.
proof fn lemma_publishing_trail(s: State, c: CommandView, now: i64)
    requires
        step(s, c, now) is Ok,
        c is Publish || c is Rollback || c is PublishStructure || c is SharedPublish,
    ensures
        same_trail(s, step(s, c, now)->Ok_0.0),
{
    reveal(same_trail);
    match c {
        CommandView::Publish { project, branch, comment, request_id, operator, ts } => {
            reveal(publish);
            let st = branch_at(s, project, branch)->0;
            let structure = read::<Structure>(s, k_struct(project))->Ok_0->0;
            if st.last_request_id != Some(request_id) {
                let vno = (st.active_version + 1) as u64;
                lemma_extended_trail(
                    s,
                    project,
                    branch,
                    active_content(s, project, branch, st.active_version)->Ok_0,
                    materialised(s, project, structure.groups, st.value_draft)->Ok_0,
                    VersionRecordView {
                        no: vno,
                        structure_version: structure.version,
                        created_at: time_of(ts, now),
                        operator: operator_of(operator),
                        comment,
                        rollback_of: None,
                        kind: VersionKind::Full,
                        snapshot_ref: None,
                        diff_ref: None,
                        event_ty: Some(EventType::ValuePublish),
                        gray: false,
                    },
                    BranchStateView {
                        active_version: vno,
                        last_request_id: Some(request_id),
                        value_draft: Map::empty(),
                        ..st
                    },
                );
            }
        },
        CommandView::Rollback { project, branch, to_version, comment, request_id, operator, ts } => {
            reveal(rollback);
            let st = branch_at(s, project, branch)->0;
            if st.last_request_id != Some(request_id) {
                let vno = (st.active_version + 1) as u64;
                lemma_extended_trail(
                    s,
                    project,
                    branch,
                    snapshot(s, project, branch, st.active_version)->Ok_0,
                    snapshot(s, project, branch, to_version)->Ok_0,
                    VersionRecordView {
                        no: vno,
                        structure_version: st.structure_version,
                        created_at: time_of(ts, now),
                        operator: operator_of(operator),
                        comment,
                        rollback_of: Some(to_version),
                        kind: VersionKind::Full,
                        snapshot_ref: None,
                        diff_ref: None,
                        event_ty: Some(EventType::Rollback),
                        gray: false,
                    },
                    BranchStateView {
                        active_version: vno,
                        last_request_id: Some(request_id),
                        ..st
                    },
                );
            }
        },
        CommandView::PublishStructure { project, comment, request_id, operator, ts } => {
            lemma_structure_trail(s, project, comment, request_id, time_of(ts, now), operator);
        },
        CommandView::SharedPublish { comment, request_id, operator, ts } => {
            reveal(shared_publish);
            let at = time_of(ts, now);
            let f = |a: Progress, item: SharedItemView|
                shared_step(a, item, comment, request_id, at);
            let p = |a: Progress| same_trail(s, a.0);
            let start: Progress = (s, Seq::empty());
            assert forall|x: Progress, item: SharedItemView| p(x) && (#[trigger] f(x, item))
                is Ok implies p(f(x, item)->Ok_0) by {
                lemma_shared_trail(s, x, item, comment, request_id, at);
            }
            assert(p(start));
            lemma_fold_keeps(shared_under(s, K_SHARED_DRAFT@), start, f, p);
        },
        _ => {},
    }
}

proof fn lemma_structure_step_trail(
    s: State,
    a: Progress,
    id: Seq<char>,
    branch: Seq<char>,
    new: StructureView,
    comment: Seq<char>,
    request_id: Seq<char>,
    ts: i64,
    operator: Seq<char>,
)
    requires
        same_trail(s, a.0),
        structure_step(a, id, branch, new, comment, request_id, ts, operator) is Ok,
    ensures
        same_trail(
            s,
            structure_step(a, id, branch, new, comment, request_id, ts, operator)->Ok_0.0,
        ),
{
    reveal(same_trail);
    let st = branch_at(a.0, id, branch)->0;
    let values = active_content(a.0, id, branch, st.active_version)->Ok_0;
    let vno = (st.active_version + 1) as u64;
    lemma_extended_trail(
        a.0,
        id,
        branch,
        values,
        values,
        VersionRecordView {
            no: vno,
            structure_version: new.version,
            created_at: ts,
            operator: operator_of(operator),
            comment,
            rollback_of: None,
            kind: VersionKind::Full,
            snapshot_ref: None,
            diff_ref: None,
            event_ty: Some(EventType::StructurePublish),
            gray: false,
        },
        BranchStateView {
            active_version: vno,
            structure_version: new.version,
            value_draft: kept_draft(st.value_draft, new.groups),
            ..st
        },
    );
    let t = structure_step(a, id, branch, new, comment, request_id, ts, operator)->Ok_0.0;
    assert forall|k: Seq<char>| in_trail(k) implies #[trigger] same_at(s, t, k) by {
        assert(same_at(s, a.0, k));
        assert(same_at(a.0, t, k));
    }
}

proof fn lemma_structure_fold_trail(
    s: State,
    list: Seq<Seq<char>>,
    id: Seq<char>,
    new: StructureView,
    comment: Seq<char>,
    request_id: Seq<char>,
    ts: i64,
    operator: Seq<char>,
)
    ensures
        fold_steps(
            list,
            (s, Seq::empty()),
            |a: Progress, b: Seq<char>|
                structure_step(a, id, b, new, comment, request_id, ts, operator),
        ) matches Ok(a) ==> same_trail(s, a.0),
{
    reveal(same_trail);
    let f = |a: Progress, b: Seq<char>|
        structure_step(a, id, b, new, comment, request_id, ts, operator);
    let p = |a: Progress| same_trail(s, a.0);
    let start: Progress = (s, Seq::empty());
    assert forall|x: Progress, b: Seq<char>| p(x) && (#[trigger] f(x, b)) is Ok implies p(
        f(x, b)->Ok_0,
    ) by {
        lemma_structure_step_trail(s, x, id, b, new, comment, request_id, ts, operator);
    }
    assert(p(start));
    lemma_fold_keeps(list, start, f, p);
}

proof fn lemma_structure_trail(
    s: State,
    id: Seq<char>,
    comment: Seq<char>,
    request_id: Seq<char>,
    ts: i64,
    operator: Seq<char>,
)
    requires
        publish_structure(s, id, comment, request_id, ts, operator) is Ok,
    ensures
        same_trail(s, publish_structure(s, id, comment, request_id, ts, operator)->Ok_0.0),
{
    let (new, a) = lemma_structure_parts(s, id, comment, request_id, ts, operator);
    lemma_structure_fold_trail(s, branches(s, id), id, new, comment, request_id, ts, operator);
    lemma_in_project(id, id, 0);
    lemma_prefix_of_sum(K_PROJECT@, id + K_STRUCT_DRAFT@);
    assert(k_struct_draft(id) =~= K_PROJECT@ + (id + K_STRUCT_DRAFT@));
    lemma_project_keys_not_in_trail(k_struct(id));
    lemma_project_keys_not_in_trail(k_struct_draft(id));
    lemma_put_trail(s, a, k_struct(id), EntryView::Structure(new));
    lemma_remove_trail(
        s,
        a.insert(k_struct(id), EntryView::Structure(new)),
        k_struct_draft(id),
    );
}

/// Creating and deleting leaves the trail alone.
proof fn lemma_projects_trail(s: State, c: CommandView, now: i64)
    requires
        step(s, c, now) is Ok,
        c is ProjectCreate || c is ProjectDelete || c is BranchCreate || c is BranchDelete,
    ensures
        same_trail(s, step(s, c, now)->Ok_0.0),
{
    match c {
        CommandView::ProjectCreate { name, operator, ts } => {
            lemma_project_create_trail(s, name, time_of(ts, now));
        },
        CommandView::ProjectDelete { id, operator } => {
            lemma_project_delete_trail(s, id);
        },
        CommandView::BranchCreate { project, name, source, operator, ts } => {
            lemma_branch_create_trail(s, project, name, source, time_of(ts, now));
        },
        CommandView::BranchDelete { project, name, operator } => {
            lemma_branch_delete_trail(s, project, name);
        },
        _ => {},
    }
}

proof fn lemma_project_delete_trail(s: State, id: Seq<char>)
    requires
        project_delete(s, id) is Ok,
    ensures
        same_trail(s, project_delete(s, id)->Ok_0.0),
{
    reveal(same_trail);
    reveal(project_delete);
    let t = project_delete(s, id)->Ok_0.0;
    let name = read::<Project>(s, k_project(id))->Ok_0->0.name;
    assert forall|k: Seq<char>| in_trail(k) implies #[trigger] same_at(s, t, k) by {
        if goes_with_project(s, id, name, k) {
            lemma_goes_not_in_trail(s, id, name, k);
        }
    }
}

proof fn lemma_branch_create_trail(
    s: State,
    id: Seq<char>,
    name: Seq<char>,
    source: Option<Seq<char>>,
    ts: i64,
)
    requires
        branch_create(s, id, name, source, ts) is Ok,
    ensures
        same_trail(s, branch_create(s, id, name, source, ts)->Ok_0.0),
{
    reveal(same_trail);
    reveal(branch_create);
    lemma_in_project(id, name, 0);
    lemma_project_keys_not_in_trail(k_branch_state(id, name));
}

proof fn lemma_branch_delete_trail(s: State, id: Seq<char>, name: Seq<char>)
    requires
        branch_delete(s, id, name) is Ok,
    ensures
        same_trail(s, branch_delete(s, id, name)->Ok_0.0),
{
    reveal(same_trail);
    reveal(branch_delete);
    let t = branch_delete(s, id, name)->Ok_0.0;
    let pre = k_branch_prefix(id, name);
    assert forall|k: Seq<char>| in_trail(k) implies #[trigger] same_at(s, t, k) by {
        if of_branch(id, name, k) {
            reveal_strlit("p/");
            assert(pre[0] == k[0]);
            lemma_not_in_trail(k);
        }
    }
}

proof fn lemma_project_create_trail(s: State, name: Seq<char>, ts: i64)
    requires
        project_create(s, name, ts) is Ok,
    ensures
        same_trail(s, project_create(s, name, ts)->Ok_0.0),
{
    reveal(same_trail);
    reveal(project_create);
    lemma_in_project(name, "dev"@, 0);
    lemma_in_project(name, "test"@, 0);
    lemma_in_project(name, "prod"@, 0);
    lemma_project_keys_not_in_trail(k_project(name));
    lemma_project_keys_not_in_trail(k_struct(name));
    lemma_project_keys_not_in_trail(k_branch_state(name, "dev"@));
    lemma_project_keys_not_in_trail(k_branch_state(name, "test"@));
    lemma_project_keys_not_in_trail(k_branch_state(name, "prod"@));
    lemma_others_not_in_trail(name, name, name, name, name);
    let e = EntryView::Branch(new_branch(1));
    let p = EntryView::Project(ProjectView { id: name, name, created_at: ts });
    let x = EntryView::Structure(StructureView { version: 1, groups: Seq::empty() });
    lemma_put_trail(s, s, k_project(name), p);
    let a = s.insert(k_project(name), p);
    lemma_put_trail(s, a, k_idx_pname(name), EntryView::Text("1"@));
    let b = a.insert(k_idx_pname(name), EntryView::Text("1"@));
    lemma_put_trail(s, b, k_struct(name), x);
    let c = b.insert(k_struct(name), x);
    lemma_put_trail(s, c, k_branch_state(name, "dev"@), e);
    let d = c.insert(k_branch_state(name, "dev"@), e);
    lemma_put_trail(s, d, k_branch_state(name, "test"@), e);
    lemma_put_trail(
        s,
        d.insert(k_branch_state(name, "test"@), e),
        k_branch_state(name, "prod"@),
        e,
    );
}

/// Preparing leaves the trail alone.
proof fn lemma_preparing_trail(s: State, c: CommandView, now: i64)
    requires
        step(s, c, now) is Ok,
        c is StructureDraftSet || c is DraftUpdate || c is SharedDraftUpdate || c is RefBind
            || c is RefUnbind,
    ensures
        same_trail(s, step(s, c, now)->Ok_0.0),
{
    match c {
        CommandView::StructureDraftSet { project, base_version, groups, operator } => {
            lemma_structure_draft_trail(s, project, base_version, groups);
        },
        CommandView::DraftUpdate { project, branch, updates, deletes, operator, ts } => {
            lemma_draft_trail(s, project, branch, updates, deletes, time_of(ts, now));
        },
        CommandView::SharedDraftUpdate { item, operator } => {
            lemma_shared_draft_trail(s, item);
        },
        CommandView::RefBind { project, binding, operator } => {
            lemma_bind_trail(s, project, binding);
        },
        CommandView::RefUnbind { project, group, item_key, operator } => {
            lemma_unbind_trail(s, project, group, item_key);
        },
        _ => {},
    }
}

proof fn lemma_structure_draft_trail(s: State, id: Seq<char>, base: u64, groups: Seq<GroupDefView>)
    requires
        structure_draft_set(s, id, base, groups) is Ok,
    ensures
        same_trail(s, structure_draft_set(s, id, base, groups)->Ok_0.0),
{
    let draft = EntryView::StructureDraft(StructureDraftView { base_version: base, groups });
    assert(structure_draft_set(s, id, base, groups)->Ok_0.0 == s.insert(k_struct_draft(id), draft))
        by {
        reveal(structure_draft_set);
    }
    assert(K_PROJECT@.is_prefix_of(k_struct_draft(id))) by {
        lemma_prefix_of_sum(K_PROJECT@, id + K_STRUCT_DRAFT@);
        assert(k_struct_draft(id) =~= K_PROJECT@ + (id + K_STRUCT_DRAFT@));
    }
    lemma_project_keys_not_in_trail(k_struct_draft(id));
    assert(same_trail(s, s)) by {
        reveal(same_trail);
    }
    lemma_put_trail(s, s, k_struct_draft(id), draft);
}

proof fn lemma_draft_trail(
    s: State,
    id: Seq<char>,
    branch: Seq<char>,
    updates: Seq<DraftUpdateItemView>,
    deletes: Seq<(Seq<char>, Seq<char>)>,
    ts: i64,
)
    requires
        draft_update(s, id, branch, updates, deletes, ts) is Ok,
    ensures
        same_trail(s, draft_update(s, id, branch, updates, deletes, ts)->Ok_0.0),
{
    reveal(same_trail);
    reveal(draft_update);
    lemma_in_project(id, branch, 0);
    lemma_project_keys_not_in_trail(k_branch_state(id, branch));
}

proof fn lemma_shared_draft_trail(s: State, item: SharedItemView)
    requires
        shared_draft_update(s, item) is Ok,
    ensures
        same_trail(s, shared_draft_update(s, item)->Ok_0.0),
{
    reveal(same_trail);
    reveal(shared_draft_update);
    lemma_others_not_in_trail(item.group, item.key, item.key, item.key, item.key);
}

proof fn lemma_bind_trail(s: State, id: Seq<char>, b: RefBindingView)
    requires
        ref_bind(s, id, b) is Ok,
    ensures
        same_trail(s, ref_bind(s, id, b)->Ok_0.0),
{
    let k0 = k_ref(id, b.group, b.item_key);
    assert(with_ref(s, id, b) is Ok && ref_bind(s, id, b) == with_ref(s, id, b)) by {
        reveal(ref_bind);
    }
    let u = without_ref(s, id, b.group, b.item_key)->Ok_0;
    lemma_without_ref_trail(s, id, b.group, b.item_key);
    lemma_ref_not_in_trail(id, b.group, b.item_key);
    lemma_mark_not_in_trail(id, b);
    lemma_put_trail(s, u, k0, EntryView::Ref(b));
    lemma_put_trail(s, u.insert(k0, EntryView::Ref(b)), mark_of(id, b), EntryView::Text("1"@));
}

proof fn lemma_mark_not_in_trail(id: Seq<char>, b: RefBindingView)
    ensures
        !in_trail(mark_of(id, b)),
{
    match b.item_key {
        Some(key) => {
            lemma_others_not_in_trail(b.shared_group, b.shared_key, id, b.group, key);
        },
        None => {
            lemma_others_not_in_trail(b.shared_group, id, b.group, id, id);
        },
    }
}

proof fn lemma_without_ref_trail(
    s: State,
    id: Seq<char>,
    group: Seq<char>,
    item_key: Option<Seq<char>>,
)
    requires
        without_ref(s, id, group, item_key) is Ok,
    ensures
        same_trail(s, without_ref(s, id, group, item_key)->Ok_0),
{
    let k0 = k_ref(id, group, item_key);
    assert(same_trail(s, s)) by {
        reveal(same_trail);
    }
    match read::<RefBinding>(s, k0)->Ok_0 {
        Some(b) => {
            lemma_ref_not_in_trail(id, group, item_key);
            lemma_mark_not_in_trail(id, b);
            lemma_remove_trail(s, s, k0);
            lemma_remove_trail(s, s.remove(k0), mark_of(id, b));
        },
        None => {},
    }
}

proof fn lemma_unbind_trail(
    s: State,
    id: Seq<char>,
    group: Seq<char>,
    item_key: Option<Seq<char>>,
)
    requires
        ref_unbind(s, id, group, item_key) is Ok,
    ensures
        same_trail(s, ref_unbind(s, id, group, item_key)->Ok_0.0),
{
    reveal(ref_unbind);
    lemma_without_ref_trail(s, id, group, item_key);
}

/// Only an entry for it changes the audit trail.
pub proof fn law_commands_leave_the_trail_alone(s: State, c: CommandView, now: i64)
    requires
        step(s, c, now) is Ok,
        !(c is AuditAppend),
    ensures
        same_trail(s, step(s, c, now)->Ok_0.0),
{
    if c is ProjectCreate || c is ProjectDelete || c is BranchCreate || c is BranchDelete {
        lemma_projects_trail(s, c, now);
    } else if c is StructureDraftSet || c is DraftUpdate || c is SharedDraftUpdate || c is RefBind
        || c is RefUnbind {
        lemma_preparing_trail(s, c, now);
    } else if c is Publish || c is Rollback || c is PublishStructure || c is SharedPublish {
        lemma_publishing_trail(s, c, now);
    } else {
        lemma_people_trail(s, c, now);
    }
}

proof fn lemma_ref_not_in_trail(id: Seq<char>, group: Seq<char>, item_key: Option<Seq<char>>)
    ensures
        !in_trail(k_ref(id, group, item_key)),
{
    reveal_strlit("p/");
    assert(k_ref(id, group, item_key)[0] == 'p');
    lemma_not_in_trail(k_ref(id, group, item_key));
}

proof fn lemma_goes_not_in_trail(s: State, id: Seq<char>, name: Seq<char>, k: Seq<char>)
    requires
        goes_with_project(s, id, name, k),
    ensures
        !in_trail(k),
{
    reveal_strlit("p/");
    reveal_strlit("sess/pa/");
    reveal_strlit("adm/pa/");
    reveal_strlit("idx/ref/");
    reveal_strlit("idx/refg/");
    reveal_strlit("idx/pname/");
    if of_project(id, k) {
        assert(k_project(id)[0] == k[0]);
    } else if k == k_idx_pname(name) {
    } else if account_key(s, id, k) {
        let i = choose|i: int|
            0 <= i < accounts(s, id).len() && account_owns(
                #[trigger] accounts(s, id)[i].username,
                k,
            );
        let u = accounts(s, id)[i].username;
        if k_pa_sessions_prefix(u).is_prefix_of(k) {
            assert(k_pa_sessions_prefix(u)[0] == k[0]);
        }
    } else if K_IDX_REF@.is_prefix_of(k) {
        assert(K_IDX_REF@[0] == k[0]);
    } else {
        assert(K_IDX_REFG@[0] == k[0]);
    }
    lemma_not_in_trail(k);
}

/// The commands on sessions and accounts leave the trail alone.
proof fn lemma_people_trail(s: State, c: CommandView, now: i64)
    requires
        step(s, c, now) is Ok,
        c is SessionLogin || c is SessionLogout || c is SessionHeartbeat || c is MultiSessionLogin
            || c is MultiSessionLogout || c is MultiSessionLogoutAll || c is MultiSessionHeartbeat
            || c is ProjectAdminCreate || c is ProjectAdminDelete || c is ProjectAdminSetPassword
            || c is PaSessionLogin || c is PaSessionLogout || c is PaSessionHeartbeat
            || c is MultiPaSessionLogin || c is AdminSetPassword || c is RotateMasterKey,
    ensures
        same_trail(s, step(s, c, now)->Ok_0.0),
{
    reveal(same_trail);
    reveal(session_login);
    reveal(prolong);
    reveal(account_create);
    reveal(account_delete);
    reveal(account_set_password);
    reveal(account_login);
    reveal(account_single_login);
    let t = step(s, c, now)->Ok_0.0;
    lemma_others_not_in_trail(K_AUDIT@, K_AUDIT@, K_AUDIT@, K_AUDIT@, K_AUDIT@);
    match c {
        CommandView::MultiSessionLogin { token_hash, issued_at, expires_at, session_id } => {
            lemma_others_not_in_trail(session_id, session_id, session_id, session_id, session_id);
        },
        CommandView::MultiSessionLogout { session_id } => {
            lemma_others_not_in_trail(session_id, session_id, session_id, session_id, session_id);
        },
        CommandView::MultiSessionLogoutAll => {
            assert forall|k: Seq<char>| in_trail(k) implies #[trigger] same_at(s, t, k) by {
                if K_SESSIONS@.is_prefix_of(k) {
                    reveal_strlit("sess/admin/");
                    assert(K_SESSIONS@[0] == k[0]);
                    lemma_not_in_trail(k);
                }
            }
        },
        CommandView::MultiSessionHeartbeat { session_id, expires_at } => {
            lemma_others_not_in_trail(session_id, session_id, session_id, session_id, session_id);
        },
        CommandView::ProjectAdminCreate { project, username, salt, password_hash, ts } => {
            lemma_others_not_in_trail(username, username, username, username, username);
        },
        CommandView::ProjectAdminDelete { username } => {
            lemma_sessions_trail(username);
        },
        CommandView::ProjectAdminSetPassword { username, salt, password_hash } => {
            lemma_sessions_trail(username);
        },
        CommandView::PaSessionLogin { username, token_hash, issued_at, expires_at, device_id } => {
            lemma_others_not_in_trail(username, username, username, username, username);
        },
        CommandView::PaSessionLogout { username } => {
            lemma_others_not_in_trail(username, username, username, username, username);
        },
        CommandView::PaSessionHeartbeat { username, expires_at } => {
            lemma_others_not_in_trail(username, username, username, username, username);
        },
        CommandView::MultiPaSessionLogin {
            username,
            token_hash,
            issued_at,
            expires_at,
            device_id,
            session_id,
        } => {
            lemma_others_not_in_trail(username, session_id, username, username, username);
        },
        _ => {},
    }
}

proof fn lemma_sessions_trail(username: Seq<char>)
    ensures
        !in_trail(k_project_admin(username)),
        forall|k: Seq<char>| #[trigger] session_of(username, k) ==> !in_trail(k),
{
    lemma_others_not_in_trail(username, username, username, username, username);
    assert forall|k: Seq<char>| #[trigger] session_of(username, k) implies !in_trail(k) by {
        if k_pa_sessions_prefix(username).is_prefix_of(k) {
            reveal_strlit("sess/pa/");
            assert(k_pa_sessions_prefix(username)[0] == k[0]);
            lemma_not_in_trail(k);
        }
    }
}

} // verus!
