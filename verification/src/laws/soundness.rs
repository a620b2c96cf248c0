//! The laws of all commands: the active version of every branch can be read, and what was published does
//! not change.
use vstd::prelude::*;

use crate::command::{CommandView, DraftUpdateItemView};
use crate::keys::{
    K_ADMIN_PW, K_AUDIT, K_AUDIT_SEQ, K_BRANCH, K_DIFF, K_IDX_REF, K_IDX_REFG, K_PROJECT,
    K_SESSION, K_SESSIONS, K_SNAP, K_STATE, K_STRUCT, K_VERSION, k_admin_session, k_audit,
    k_branch_prefix, k_branch_state, k_diff, k_idx_pname, k_pa_session, k_pa_session_with,
    k_pa_sessions_prefix, k_project, k_project_admin, k_ref, k_shared_draft, k_snapshot, k_struct,
    k_struct_draft, k_version,
};
use crate::laws::commands::{
    law_publish_is_read_back, law_rollback_restores, lemma_deletes_finite, lemma_draft_from_finite,
    lemma_keeps_reflexive, lemma_publish_structure, lemma_shared_publish, lemma_updates_finite,
};
use crate::laws::paths::{
    in_project, is_part, law_names_are_parts, lemma_branch_keys, lemma_in_project,
    lemma_not_in_project, lemma_of_branch, lemma_of_project, lemma_outside_keys,
    lemma_project_parts, lemma_state_names, lemma_struct_draft_parts, lemma_struct_parts,
    lemma_words, parts,
};
use crate::laws::sound::{
    all_placed, branch_at, finite_draft, in_place, is_project_key, is_struct_key,
    lemma_snapshot_finite, lemma_snapshot_same, rebuilds, same_at, same_version, sound,
};
use crate::laws::steps::{
    lemma_branch_names, lemma_new_branch, lemma_outside, lemma_project_names, lemma_ref_key_placed,
    lemma_ref_keys, lemma_same_branches, lemma_state_write, lemma_struct_names,
    lemma_structure_key, same_branches,
};
use crate::laws::versions::{keeps, keeps_branch, lemma_branch_same, lemma_keeps_transitive};
use crate::limits::MAX_PROJECT_NAME_BYTES;
use crate::model::{
    AuditEntryView, BranchStateView, EntryView, GroupDefView, Project, ProjectAdminAccount,
    ProjectAdminAccountView, ProjectView, RefBinding, RefBindingView, Structure,
    StructureDraftView, StructureView, new_branch,
};
use crate::step::{accounts, config, read, snapshot};
use crate::store::State;
use crate::text::{dec, lemma_split_single};
use crate::transition::{
    account_create, account_delete, account_key, account_login, account_owns, account_set_password,
    account_single_login, after_deletes, after_updates, audit_append, branch_create, branch_delete,
    draft_update, first_state, goes_with_project, mark_of, of_branch, of_project, project_create,
    project_delete, prolong, ref_bind, ref_mark, ref_unbind, session_login, session_of,
    shared_draft_update, step, structure_draft_set, time_of, without_ref, without_sessions_of,
};

verus! {

/// A change outside of the projects keeps a sound state sound.
proof fn lemma_outside_change(s: State, t: State)
    requires
        sound(s),
        all_placed(t),
        forall|k: Seq<char>| in_project(k) ==> #[trigger] same_at(s, t, k),
    ensures
        sound(t),
        keeps(s, t),
{
    lemma_outside(s, t);
    assert forall|i: Seq<char>| is_part(i) && s.contains_key(#[trigger] k_project(i)) implies t.contains_key(
        k_project(i),
    ) by {
        assert(same_at(s, t, k_project(i)));
    }
    lemma_same_branches(s, t);
}

/// Putting an entry that may stand anywhere, outside of the projects.
proof fn lemma_put_outside(s: State, k0: Seq<char>, e: EntryView)
    requires
        sound(s),
        !in_project(k0),
        in_place(k0, e),
    ensures
        sound(s.insert(k0, e)),
        keeps(s, s.insert(k0, e)),
{
    let t = s.insert(k0, e);
    assert forall|k: Seq<char>| #[trigger] t.contains_key(k) implies in_place(k, t[k]) by {
        if k != k0 {
            assert(s.contains_key(k));
        }
    }
    lemma_outside_change(s, t);
}

/// Removing keys outside of the projects.
proof fn lemma_remove_outside(s: State, gone: Set<Seq<char>>)
    requires
        sound(s),
        forall|k: Seq<char>| #[trigger] gone.contains(k) ==> !in_project(k),
    ensures
        sound(s.remove_keys(gone)),
        keeps(s, s.remove_keys(gone)),
{
    let t = s.remove_keys(gone);
    assert forall|k: Seq<char>| #[trigger] t.contains_key(k) implies in_place(k, t[k]) by {
        assert(s.contains_key(k));
    }
    lemma_outside_change(s, t);
}

proof fn lemma_remove_one(s: State, k0: Seq<char>)
    requires
        sound(s),
        !in_project(k0),
    ensures
        sound(s.remove(k0)),
        keeps(s, s.remove(k0)),
{
    let gone = Set::new(|k: Seq<char>| k == k0);
    lemma_remove_outside(s, gone);
    assert(s.remove(k0) =~= s.remove_keys(gone));
}

proof fn lemma_project_create(s: State, name: Seq<char>, ts: i64)
    requires
        sound(s),
        project_create(s, name, ts) is Ok,
    ensures
        sound(project_create(s, name, ts)->Ok_0.0),
        keeps(s, project_create(s, name, ts)->Ok_0.0),
{
    reveal(project_create);
    law_names_are_parts(name, MAX_PROJECT_NAME_BYTES as nat);
    reveal_strlit("dev");
    reveal_strlit("test");
    reveal_strlit("prod");
    assert(is_part("dev"@) && is_part("test"@) && is_part("prod"@));
    let kp = k_project(name);
    let a = s.insert(kp, EntryView::Project(ProjectView { id: name, name, created_at: ts }));
    // The entry of the project.
    assert(is_project_key(kp));
    assert(!s.contains_key(kp));
    lemma_project_parts(name);
    lemma_split_single(name, '/');
    assert(parts(kp).len() == 2);
    assert forall|k: Seq<char>| #[trigger] a.contains_key(k) implies in_place(k, a[k]) by {
        if k != kp {
            assert(s.contains_key(k));
        }
    }
    assert(same_branches(s, a)) by {
        assert forall|i: Seq<char>, b: Seq<char>| is_part(i) && is_part(b) implies same_at(
            s,
            a,
            #[trigger] k_branch_state(i, b),
        ) by {
            lemma_branch_keys(i, b, 0);
            assert(parts(k_branch_state(i, b)).len() == 5);
        }
        assert forall|i: Seq<char>, b: Seq<char>, n: u64|
            is_part(i) && is_part(b) implies #[trigger] same_version(s, a, i, b, n) by {
            lemma_branch_keys(i, b, n);
            assert(parts(k_version(i, b, n)).len() == 6);
            assert(parts(k_snapshot(i, b, n)).len() == 7);
            assert(parts(k_diff(i, b, n)).len() == 7);
        }
    }
    lemma_same_branches(s, a);
    // Its name and its structure.
    lemma_outside_keys(name, name, name, name, name, 0);
    let b = a.insert(k_idx_pname(name), EntryView::Text("1"@));
    lemma_put_outside(a, k_idx_pname(name), EntryView::Text("1"@));
    lemma_keeps_transitive(s, a, b);
    let e = EntryView::Structure(StructureView { version: 1, groups: Seq::empty() });
    let c = b.insert(k_struct(name), e);
    assert(is_struct_key(k_struct(name)));
    assert forall|k: Seq<char>| #[trigger] c.contains_key(k) implies in_place(k, c[k]) by {
        if k != k_struct(name) {
            assert(b.contains_key(k));
        }
    }
    lemma_structure_key(b, c, name);
    lemma_same_branches(b, c);
    lemma_keeps_transitive(s, b, c);
    // Its branches.
    assert forall|x: Seq<char>| is_part(x) implies #[trigger] branch_at(s, name, x) is None by {}
    let st = new_branch(1);
    let e = EntryView::Branch(st);
    assert(finite_draft(st.value_draft));
    lemma_no_branch_yet(s, c, name, "dev"@);
    lemma_new_branch(c, name, "dev"@, st);
    let d1 = c.insert(k_branch_state(name, "dev"@), e);
    lemma_keeps_transitive(s, c, d1);
    lemma_other_state_key(name, "dev"@, "test"@);
    lemma_no_branch_yet(s, c, name, "test"@);
    lemma_new_branch(d1, name, "test"@, st);
    let d2 = d1.insert(k_branch_state(name, "test"@), e);
    lemma_keeps_transitive(s, d1, d2);
    lemma_other_state_key(name, "dev"@, "prod"@);
    assert("test"@[0] != "prod"@[0]);
    lemma_other_state_key(name, "test"@, "prod"@);
    lemma_no_branch_yet(s, c, name, "prod"@);
    lemma_new_branch(d2, name, "prod"@, st);
    lemma_keeps_transitive(s, d2, d2.insert(k_branch_state(name, "prod"@), e));
}

/// A branch that was not there before its project is not there after its entries were put.
proof fn lemma_no_branch_yet(s: State, c: State, name: Seq<char>, branch: Seq<char>)
    requires
        is_part(name),
        is_part(branch),
        branch_at(s, name, branch) is None,
        forall|k: Seq<char>|
            k != k_project(name) && k != k_idx_pname(name) && k != k_struct(name)
                ==> #[trigger] same_at(s, c, k),
    ensures
        branch_at(c, name, branch) is None,
{
    lemma_branch_keys(name, branch, 0);
    lemma_project_parts(name);
    lemma_struct_parts(name);
    lemma_split_single(name, '/');
    lemma_in_project(name, branch, 0);
    lemma_outside_keys(name, name, name, name, name, 0);
    let k = k_branch_state(name, branch);
    assert(parts(k).len() == 5);
    assert(parts(k_project(name)).len() == 2);
    assert(parts(k_struct(name)).len() == 3);
    assert(same_at(s, c, k));
}

proof fn lemma_other_state_key(id: Seq<char>, a: Seq<char>, b: Seq<char>)
    requires
        is_part(id) && is_part(a) && is_part(b),
        a != b,
    ensures
        k_branch_state(id, a) != k_branch_state(id, b),
{
    if k_branch_state(id, a) == k_branch_state(id, b) {
        lemma_state_names(id, a, id, b);
    }
}

/// The keys that go with a project and stand outside of the projects.
pub proof fn lemma_goes_outside(s: State, id: Seq<char>, name: Seq<char>, k: Seq<char>)
    requires
        in_project(k),
        goes_with_project(s, id, name, k),
    ensures
        of_project(id, k),
{
    lemma_outside_keys(name, name, name, name, name, 0);
    reveal_strlit("p/");
    assert(k[0] == K_PROJECT@[0]);
    assert(k[0] == 'p');
    reveal_strlit("sess/pa/");
    reveal_strlit("adm/pa/");
    reveal_strlit("idx/ref/");
    reveal_strlit("idx/refg/");
    if !of_project(id, k) {
        if account_key(s, id, k) {
            let i = choose|i: int|
                0 <= i < accounts(s, id).len() && account_owns(
                    #[trigger] accounts(s, id)[i].username,
                    k,
                );
            let u = accounts(s, id)[i].username;
            assert(k_project_admin(u)[0] == 'a');
            assert(k_pa_session(u)[0] == 's');
            if k_pa_sessions_prefix(u).is_prefix_of(k) {
                assert(k_pa_sessions_prefix(u)[0] == k[0]);
            }
        } else {
            assert(ref_mark(id, k));
            if K_IDX_REF@.is_prefix_of(k) {
                assert(K_IDX_REF@[0] == k[0]);
            } else {
                assert(K_IDX_REFG@[0] == k[0]);
            }
        }
    }
}

/// A deletion that takes all of a branch or nothing of it keeps a sound state sound.
proof fn lemma_whole_branches_go(s: State, gone: Set<Seq<char>>)
    requires
        sound(s),
        forall|i: Seq<char>, b: Seq<char>|
            is_part(i) && is_part(b) && !gone.contains(#[trigger] k_branch_state(i, b)) ==> {
                &&& !gone.contains(k_project(i))
                &&& forall|n: u64| #[trigger] same_version(s, s.remove_keys(gone), i, b, n)
            },
        forall|i: Seq<char>, b: Seq<char>, n: u64|
            is_part(i) && is_part(b) && gone.contains(k_branch_state(i, b)) ==> gone.contains(
                #[trigger] k_version(i, b, n),
            ),
    ensures
        sound(s.remove_keys(gone)),
{
    let t = s.remove_keys(gone);
    assert forall|k: Seq<char>| #[trigger] t.contains_key(k) implies in_place(k, t[k]) by {
        assert(s.contains_key(k));
    }
    assert forall|i: Seq<char>, b: Seq<char>|
        is_part(i) && is_part(b) && (#[trigger] branch_at(t, i, b)) is Some implies t.contains_key(
        k_project(i),
    ) && (branch_at(t, i, b)->0.active_version > 0 ==> rebuilds(
        t,
        i,
        b,
        branch_at(t, i, b)->0.active_version,
    )) by {
        assert(!gone.contains(k_branch_state(i, b)));
        assert(same_at(s, t, k_branch_state(i, b)));
        lemma_branch_same(s, t, i, b);
        assert(branch_at(s, i, b) is Some);
        assert(s.contains_key(k_project(i)));
    }
    assert forall|i: Seq<char>, b: Seq<char>, n: u64|
        is_part(i) && is_part(b) && t.contains_key(#[trigger] k_version(i, b, n)) implies (branch_at(
        t,
        i,
        b,
    ) matches Some(x) && 1 <= n <= x.active_version) by {
        assert(s.contains_key(k_version(i, b, n)));
        assert(!gone.contains(k_branch_state(i, b)));
        assert(same_at(s, t, k_branch_state(i, b)));
    }
}

proof fn lemma_project_delete(s: State, id: Seq<char>)
    requires
        sound(s),
        project_delete(s, id) is Ok,
    ensures
        sound(project_delete(s, id)->Ok_0.0),
{
    reveal(project_delete);
    lemma_project_names(s, id);
    let name = read::<Project>(s, k_project(id))->Ok_0->0.name;
    let gone = Set::new(|k: Seq<char>| goes_with_project(s, id, name, k));
    let t = s.remove_keys(gone);
    assert forall|i: Seq<char>, b: Seq<char>|
        is_part(i) && is_part(b) && !gone.contains(#[trigger] k_branch_state(i, b)) implies {
        &&& !gone.contains(k_project(i))
        &&& forall|n: u64| #[trigger] same_version(s, t, i, b, n)
    } by {
        lemma_branch_survives(s, id, name, i, b, 0);
        assert forall|n: u64| #[trigger] same_version(s, t, i, b, n) by {
            lemma_branch_survives(s, id, name, i, b, n);
        }
    }
    assert forall|i: Seq<char>, b: Seq<char>, n: u64|
        is_part(i) && is_part(b) && gone.contains(k_branch_state(i, b)) implies gone.contains(
        #[trigger] k_version(i, b, n),
    ) by {
        lemma_in_project(i, b, n);
        lemma_project_keys(i, b, n);
        lemma_goes_outside(s, id, name, k_branch_state(i, b));
        lemma_of_project(id, i, K_BRANCH@ + b + K_STATE@);
        lemma_of_project(id, i, K_BRANCH@ + b + K_VERSION@ + dec(n as nat));
    }
    lemma_whole_branches_go(s, gone);
}

/// A branch whose state stays when a project goes stays as a whole.
proof fn lemma_branch_survives(
    s: State,
    id: Seq<char>,
    name: Seq<char>,
    i: Seq<char>,
    b: Seq<char>,
    n: u64,
)
    requires
        is_part(id),
        is_part(i),
        !goes_with_project(s, id, name, k_branch_state(i, b)),
    ensures
        !goes_with_project(s, id, name, k_project(i)),
        !goes_with_project(s, id, name, k_version(i, b, n)),
        !goes_with_project(s, id, name, k_snapshot(i, b, n)),
        !goes_with_project(s, id, name, k_diff(i, b, n)),
{
    lemma_in_project(i, b, n);
    lemma_project_keys(i, b, n);
    let tail = K_BRANCH@ + b + K_VERSION@ + dec(n as nat);
    lemma_of_project(id, i, K_BRANCH@ + b + K_STATE@);
    lemma_of_project(id, i, Seq::empty());
    lemma_of_project(id, i, tail);
    lemma_of_project(id, i, tail + K_SNAP@);
    lemma_of_project(id, i, tail + K_DIFF@);
    assert forall|k: Seq<char>| in_project(k) && !of_project(id, k) implies !#[trigger] goes_with_project(
        s,
        id,
        name,
        k,
    ) by {
        if goes_with_project(s, id, name, k) {
            lemma_goes_outside(s, id, name, k);
        }
    }
}

/// The keys of a branch, behind the key of its project.
pub proof fn lemma_project_keys(i: Seq<char>, b: Seq<char>, n: u64)
    ensures
        ({
            let tail = K_BRANCH@ + b + K_VERSION@ + dec(n as nat);
            &&& k_branch_state(i, b) == k_project(i) + (K_BRANCH@ + b + K_STATE@)
            &&& k_version(i, b, n) == k_project(i) + tail
            &&& k_snapshot(i, b, n) == k_project(i) + (tail + K_SNAP@)
            &&& k_diff(i, b, n) == k_project(i) + (tail + K_DIFF@)
            &&& k_project(i) == k_project(i) + Seq::<char>::empty()
            &&& (K_BRANCH@ + b + K_STATE@)[0] == '/' && tail[0] == '/' && (tail + K_SNAP@)[0] == '/' && (
            tail + K_DIFF@)[0] == '/'
        }),
{
    reveal_strlit("/b/");
    let tail = K_BRANCH@ + b + K_VERSION@ + dec(n as nat);
    assert(k_branch_state(i, b) =~= k_project(i) + (K_BRANCH@ + b + K_STATE@));
    assert(k_version(i, b, n) =~= k_project(i) + tail);
    assert(k_snapshot(i, b, n) =~= k_project(i) + (tail + K_SNAP@));
    assert(k_diff(i, b, n) =~= k_project(i) + (tail + K_DIFF@));
    assert(k_project(i) =~= k_project(i) + Seq::<char>::empty());
}

proof fn lemma_branch_create(
    s: State,
    id: Seq<char>,
    name: Seq<char>,
    source: Option<Seq<char>>,
    ts: i64,
)
    requires
        sound(s),
        branch_create(s, id, name, source, ts) is Ok,
    ensures
        sound(branch_create(s, id, name, source, ts)->Ok_0.0),
        keeps(s, branch_create(s, id, name, source, ts)->Ok_0.0),
{
    reveal(branch_create);
    law_names_are_parts(name, 64);
    lemma_project_names(s, id);
    let structure = read::<Structure>(s, k_struct(id))->Ok_0;
    let version = match structure {
        Some(x) => x.version,
        None => 1,
    };
    let st = first_state(s, id, version, source, ts)->Ok_0;
    match source {
        Some(src) => {
            let from = branch_at(s, id, src)->0;
            lemma_snapshot_finite(s, id, src, from.active_version);
            lemma_draft_from_finite(snapshot(s, id, src, from.active_version)->Ok_0, ts);
        },
        None => {
            assert(finite_draft(st.value_draft));
        },
    }
    lemma_new_branch(s, id, name, st);
}

proof fn lemma_branch_delete(s: State, id: Seq<char>, name: Seq<char>)
    requires
        sound(s),
        branch_delete(s, id, name) is Ok,
    ensures
        sound(branch_delete(s, id, name)->Ok_0.0),
{
    reveal(branch_delete);
    assert(branch_at(s, id, name) is Some);
    lemma_branch_names(s, id, name);
    let gone = Set::new(|k: Seq<char>| of_branch(id, name, k));
    let t = s.remove_keys(gone);
    assert forall|i: Seq<char>, b: Seq<char>|
        is_part(i) && is_part(b) && !gone.contains(#[trigger] k_branch_state(i, b)) implies {
        &&& !gone.contains(k_project(i))
        &&& forall|n: u64| #[trigger] same_version(s, t, i, b, n)
    } by {
        lemma_whole_branch(id, name, i, b, 0);
        assert forall|n: u64| #[trigger] same_version(s, t, i, b, n) by {
            lemma_whole_branch(id, name, i, b, n);
        }
    }
    assert forall|i: Seq<char>, b: Seq<char>, n: u64|
        is_part(i) && is_part(b) && gone.contains(k_branch_state(i, b)) implies gone.contains(
        #[trigger] k_version(i, b, n),
    ) by {
        lemma_whole_branch(id, name, i, b, n);
    }
    lemma_whole_branches_go(s, gone);
}

/// The keys of a branch go together, and with none goes a project or its structure.
pub proof fn lemma_whole_branch(id: Seq<char>, name: Seq<char>, i: Seq<char>, b: Seq<char>, n: u64)
    requires
        is_part(id) && is_part(name) && is_part(i) && is_part(b),
    ensures
        of_branch(id, name, k_branch_state(i, b)) == (id == i && name.is_prefix_of(b)),
        of_branch(id, name, k_version(i, b, n)) == (id == i && name.is_prefix_of(b)),
        of_branch(id, name, k_snapshot(i, b, n)) == (id == i && name.is_prefix_of(b)),
        of_branch(id, name, k_diff(i, b, n)) == (id == i && name.is_prefix_of(b)),
        !of_branch(id, name, k_project(i)),
        !of_branch(id, name, k_struct(i)),
{
    let own = k_branch_prefix(i, b);
    let tail = K_VERSION@ + dec(n as nat);
    reveal_strlit("/b/");
    reveal_strlit("/v/");
    reveal_strlit("/state");
    reveal_strlit("/struct");
    assert(k_branch_state(i, b) =~= own + K_STATE@);
    assert(k_version(i, b, n) =~= own + tail);
    assert(k_snapshot(i, b, n) =~= own + (tail + K_SNAP@));
    assert(k_diff(i, b, n) =~= own + (tail + K_DIFF@));
    assert(tail[0] == '/' && (tail + K_SNAP@)[0] == '/' && (tail + K_DIFF@)[0] == '/');
    lemma_of_branch(id, name, i, b, K_STATE@);
    lemma_of_branch(id, name, i, b, tail);
    lemma_of_branch(id, name, i, b, tail + K_SNAP@);
    lemma_of_branch(id, name, i, b, tail + K_DIFF@);
    let pre = k_branch_prefix(id, name);
    let at = (K_PROJECT@.len() + id.len()) as int;
    assert(pre[at] == '/' && pre[at + 1] == 'b');
    if pre.is_prefix_of(k_project(i)) {
        assert(k_project(i)[at] == i[id.len() as int]);
        assert(i.contains('/'));
    }
    if pre.is_prefix_of(k_struct(i)) {
        let k = k_struct(i);
        assert(k[at] == pre[at] && k[at + 1] == pre[at + 1]);
        let m = (K_PROJECT@.len() + i.len()) as int;
        assert(k =~= k_project(i) + K_STRUCT@);
        if id.len() < i.len() {
            assert(k[at] == i[id.len() as int]);
            assert(i.contains('/'));
        } else if id.len() == i.len() {
            assert(k[at + 1] == K_STRUCT@[1]);
        } else {
            assert(k[m] == '/');
            assert(pre[m] == id[i.len() as int]);
            assert(id.contains('/'));
        }
    }
}

proof fn lemma_structure_draft_set(
    s: State,
    id: Seq<char>,
    base_version: u64,
    groups: Seq<GroupDefView>,
)
    requires
        sound(s),
        structure_draft_set(s, id, base_version, groups) is Ok,
    ensures
        sound(structure_draft_set(s, id, base_version, groups)->Ok_0.0),
        keeps(s, structure_draft_set(s, id, base_version, groups)->Ok_0.0),
        same_branches(s, structure_draft_set(s, id, base_version, groups)->Ok_0.0),
{
    let t = structure_draft_set(s, id, base_version, groups)->Ok_0.0;
    let draft = EntryView::StructureDraft(StructureDraftView { base_version, groups });
    assert(t == s.insert(k_struct_draft(id), draft) && (read::<Structure>(s, k_struct(id)) matches Ok(
        Some(_),
    ))) by {
        reveal(structure_draft_set);
    }
    lemma_struct_names(s, id);
    lemma_structure_key(s, t, id);
    assert forall|k: Seq<char>| #[trigger] t.contains_key(k) implies in_place(k, t[k]) by {
        if k != k_struct_draft(id) {
            assert(s.contains_key(k));
        }
    }
    lemma_same_branches(s, t);
}

proof fn lemma_draft_update(
    s: State,
    id: Seq<char>,
    branch: Seq<char>,
    updates: Seq<DraftUpdateItemView>,
    deletes: Seq<(Seq<char>, Seq<char>)>,
    ts: i64,
)
    requires
        sound(s),
        draft_update(s, id, branch, updates, deletes, ts) is Ok,
    ensures
        sound(draft_update(s, id, branch, updates, deletes, ts)->Ok_0.0),
        keeps(s, draft_update(s, id, branch, updates, deletes, ts)->Ok_0.0),
{
    reveal(draft_update);
    assert(branch_at(s, id, branch) is Some);
    lemma_branch_names(s, id, branch);
    let st = branch_at(s, id, branch)->0;
    lemma_deletes_finite(st.value_draft, deletes);
    lemma_updates_finite(after_deletes(st.value_draft, deletes), updates, ts);
    let next = BranchStateView {
        value_draft: after_updates(after_deletes(st.value_draft, deletes), updates, ts),
        draft_rev: (st.draft_rev + 1) as u64,
        ..st
    };
    lemma_state_write(s, id, branch, next);
}

proof fn lemma_ref_bind(s: State, id: Seq<char>, b: RefBindingView)
    requires
        sound(s),
        ref_bind(s, id, b) is Ok,
    ensures
        sound(ref_bind(s, id, b)->Ok_0.0),
        keeps(s, ref_bind(s, id, b)->Ok_0.0),
        same_branches(s, ref_bind(s, id, b)->Ok_0.0),
        forall|i: Seq<char>|
            is_part(i) ==> same_at(s, ref_bind(s, id, b)->Ok_0.0, #[trigger] k_struct(i)),
{
    reveal(ref_bind);
    lemma_struct_names(s, id);
    let u = without_ref(s, id, b.group, b.item_key)->Ok_0;
    let t = ref_bind(s, id, b)->Ok_0.0;
    let k0 = k_ref(id, b.group, b.item_key);
    lemma_ref_key_placed(id, b.group, b.item_key);
    lemma_mark_outside(id, b);
    let mark = mark_of(id, b);
    assert(t == u.insert(k0, EntryView::Ref(b)).insert(mark, EntryView::Text("1"@)));
    match read::<RefBinding>(s, k0)->Ok_0 {
        Some(x) => {
            lemma_mark_outside(id, x);
        },
        None => {},
    }
    assert forall|k: Seq<char>| in_project(k) && k != k0 implies #[trigger] same_at(s, t, k) by {}
    lemma_ref_keys(s, t, k0);
    assert forall|k: Seq<char>| #[trigger] t.contains_key(k) implies in_place(k, t[k]) by {
        if k != k0 && k != mark {
            assert(s.contains_key(k));
        }
    }
    lemma_same_branches(s, t);
}

/// The marks of references stand outside of the projects.
proof fn lemma_mark_outside(id: Seq<char>, b: RefBindingView)
    ensures
        !in_project(mark_of(id, b)),
        in_place(mark_of(id, b), EntryView::Text("1"@)),
{
    match b.item_key {
        Some(key) => {
            lemma_outside_keys(b.shared_group, b.shared_key, id, b.group, key, 0);
        },
        None => {
            lemma_outside_keys(b.shared_group, id, b.group, id, id, 0);
        },
    }
}

proof fn lemma_ref_unbind(s: State, id: Seq<char>, group: Seq<char>, item_key: Option<Seq<char>>)
    requires
        sound(s),
        ref_unbind(s, id, group, item_key) is Ok,
    ensures
        sound(ref_unbind(s, id, group, item_key)->Ok_0.0),
        keeps(s, ref_unbind(s, id, group, item_key)->Ok_0.0),
        same_branches(s, ref_unbind(s, id, group, item_key)->Ok_0.0),
        forall|i: Seq<char>|
            is_part(i) ==> same_at(
                s,
                ref_unbind(s, id, group, item_key)->Ok_0.0,
                #[trigger] k_struct(i),
            ),
{
    reveal(ref_unbind);
    let t = ref_unbind(s, id, group, item_key)->Ok_0.0;
    let k0 = k_ref(id, group, item_key);
    match read::<RefBinding>(s, k0)->Ok_0 {
        None => {},
        Some(b) => {
            assert(in_place(k0, s[k0]));
            lemma_mark_outside(id, b);
            assert forall|k: Seq<char>| in_project(k) && k != k0 implies #[trigger] same_at(s, t, k) by {}
            lemma_ref_keys(s, t, k0);
            assert forall|k: Seq<char>| #[trigger] t.contains_key(k) implies in_place(k, t[k]) by {
                assert(s.contains_key(k));
            }
            lemma_same_branches(s, t);
        },
    }
}

proof fn lemma_without_sessions(s: State, username: Seq<char>)
    requires
        sound(s),
    ensures
        sound(without_sessions_of(s, username)),
        keeps(s, without_sessions_of(s, username)),
{
    let gone = Set::new(|k: Seq<char>| session_of(username, k));
    assert forall|k: Seq<char>| #[trigger] gone.contains(k) implies !in_project(k) by {
        lemma_outside_keys(username, username, username, username, username, 0);
        if k_pa_sessions_prefix(username).is_prefix_of(k) {
            reveal_strlit("sess/pa/");
            assert(k_pa_sessions_prefix(username)[0] == k[0]);
            lemma_not_in_project(k);
        }
    }
    lemma_remove_outside(s, gone);
}

/// Whether a command takes a project or a branch away.
pub open spec fn deletes(c: CommandView) -> bool {
    c is ProjectDelete || c is BranchDelete
}

/// Every command leads from a sound state to a sound state. A command that deletes neither a project nor
/// a branch keeps every branch and everything that it has published.
pub proof fn law_commands_keep_states_sound(s: State, c: CommandView, now: i64)
    requires
        sound(s),
        step(s, c, now) is Ok,
    ensures
        sound(step(s, c, now)->Ok_0.0),
        !deletes(c) ==> keeps(s, step(s, c, now)->Ok_0.0),
{
    lemma_keeps_reflexive(s);
    match c {
        CommandView::ProjectCreate { name, operator, ts } => {
            lemma_project_create(s, name, time_of(ts, now));
        },
        CommandView::ProjectDelete { id, operator } => {
            lemma_project_delete(s, id);
        },
        CommandView::BranchCreate { project, name, source, operator, ts } => {
            lemma_branch_create(s, project, name, source, time_of(ts, now));
        },
        CommandView::BranchDelete { project, name, operator } => {
            lemma_branch_delete(s, project, name);
        },
        CommandView::StructureDraftSet { project, base_version, groups, operator } => {
            lemma_structure_draft_set(s, project, base_version, groups);
        },
        CommandView::PublishStructure { project, comment, request_id, operator, ts } => {
            lemma_publish_structure(s, project, comment, request_id, time_of(ts, now), operator);
        },
        CommandView::DraftUpdate { project, branch, updates, deletes, operator, ts } => {
            lemma_draft_update(s, project, branch, updates, deletes, time_of(ts, now));
        },
        CommandView::Publish { project, branch, comment, request_id, operator, ts } => {
            law_publish_is_read_back(
                s,
                project,
                branch,
                comment,
                request_id,
                time_of(ts, now),
                operator,
            );
        },
        CommandView::Rollback { project, branch, to_version, comment, request_id, operator, ts } => {
            law_rollback_restores(
                s,
                project,
                branch,
                to_version,
                comment,
                request_id,
                time_of(ts, now),
                operator,
            );
        },
        CommandView::SharedDraftUpdate { item, operator } => {
            reveal(shared_draft_update);
            lemma_outside_keys(item.group, item.key, item.key, item.key, item.key, 0);
            lemma_put_outside(s, k_shared_draft(item.group, item.key), EntryView::Shared(item));
        },
        CommandView::SharedPublish { comment, request_id, operator, ts } => {
            lemma_shared_publish(s, comment, request_id, time_of(ts, now));
        },
        CommandView::RefBind { project, binding, operator } => {
            lemma_ref_bind(s, project, binding);
        },
        CommandView::RefUnbind { project, group, item_key, operator } => {
            lemma_ref_unbind(s, project, group, item_key);
        },
        CommandView::AuditAppend { entry } => {
            reveal(audit_append);
            let seq = step(s, c, now)->Ok_0.0[K_AUDIT_SEQ@]->Counter_0;
            lemma_outside_keys(K_AUDIT@, K_AUDIT@, K_AUDIT@, K_AUDIT@, K_AUDIT@, seq);
            let e = EntryView::Audit(AuditEntryView { seq, ..entry });
            lemma_put_outside(s, k_audit(seq), e);
            let t = s.insert(k_audit(seq), e);
            lemma_put_outside(t, K_AUDIT_SEQ@, EntryView::Counter(seq));
            lemma_keeps_transitive(s, t, t.insert(K_AUDIT_SEQ@, EntryView::Counter(seq)));
        },
        CommandView::RotateMasterKey { kek, kek_enc } => {},
        _ => {
            lemma_sessions_and_accounts(s, c, now);
        },
    }
}

/// The commands on sessions and accounts.
proof fn lemma_sessions_and_accounts(s: State, c: CommandView, now: i64)
    requires
        sound(s),
        step(s, c, now) is Ok,
        c is SessionLogin || c is SessionLogout || c is SessionHeartbeat || c is MultiSessionLogin
            || c is MultiSessionLogout || c is MultiSessionLogoutAll || c is MultiSessionHeartbeat
            || c is ProjectAdminCreate || c is ProjectAdminDelete || c is ProjectAdminSetPassword
            || c is PaSessionLogin || c is PaSessionLogout || c is PaSessionHeartbeat
            || c is MultiPaSessionLogin || c is AdminSetPassword,
    ensures
        sound(step(s, c, now)->Ok_0.0),
        keeps(s, step(s, c, now)->Ok_0.0),
{
    reveal(session_login);
    reveal(prolong);
    reveal(account_create);
    reveal(account_delete);
    reveal(account_set_password);
    reveal(account_login);
    reveal(account_single_login);
    let t = step(s, c, now)->Ok_0.0;
    match c {
        CommandView::SessionLogin { token_hash, issued_at, expires_at } => {
            lemma_outside_keys(token_hash, token_hash, token_hash, token_hash, token_hash, 0);
            lemma_put_outside(s, K_SESSION@, t[K_SESSION@]);
        },
        CommandView::SessionLogout => {
            lemma_outside_keys(K_SESSION@, K_SESSION@, K_SESSION@, K_SESSION@, K_SESSION@, 0);
            lemma_remove_one(s, K_SESSION@);
        },
        CommandView::SessionHeartbeat { expires_at } => {
            lemma_outside_keys(K_SESSION@, K_SESSION@, K_SESSION@, K_SESSION@, K_SESSION@, 0);
            lemma_put_outside(s, K_SESSION@, t[K_SESSION@]);
        },
        CommandView::MultiSessionLogin { token_hash, issued_at, expires_at, session_id } => {
            lemma_outside_keys(session_id, session_id, session_id, session_id, session_id, 0);
            lemma_put_outside(s, k_admin_session(session_id), t[k_admin_session(session_id)]);
        },
        CommandView::MultiSessionLogout { session_id } => {
            lemma_outside_keys(session_id, session_id, session_id, session_id, session_id, 0);
            lemma_remove_one(s, k_admin_session(session_id));
        },
        CommandView::MultiSessionLogoutAll => {
            lemma_outside_keys(K_SESSION@, K_SESSION@, K_SESSION@, K_SESSION@, K_SESSION@, 0);
            let gone = Set::new(|k: Seq<char>| k == K_SESSION@ || K_SESSIONS@.is_prefix_of(k));
            assert forall|k: Seq<char>| #[trigger] gone.contains(k) implies !in_project(k) by {
                if K_SESSIONS@.is_prefix_of(k) {
                    reveal_strlit("sess/admin/");
                    assert(K_SESSIONS@[0] == k[0]);
                    lemma_not_in_project(k);
                }
            }
            lemma_remove_outside(s, gone);
        },
        CommandView::MultiSessionHeartbeat { session_id, expires_at } => {
            lemma_outside_keys(session_id, session_id, session_id, session_id, session_id, 0);
            lemma_put_outside(s, k_admin_session(session_id), t[k_admin_session(session_id)]);
        },
        CommandView::ProjectAdminCreate { project, username, salt, password_hash, ts } => {
            lemma_outside_keys(username, username, username, username, username, 0);
            lemma_put_outside(s, k_project_admin(username), t[k_project_admin(username)]);
        },
        CommandView::ProjectAdminDelete { username } => {
            lemma_outside_keys(username, username, username, username, username, 0);
            lemma_without_sessions(s, username);
            let a = without_sessions_of(s, username);
            lemma_remove_one(a, k_project_admin(username));
            lemma_keeps_transitive(s, a, a.remove(k_project_admin(username)));
        },
        CommandView::ProjectAdminSetPassword { username, salt, password_hash } => {
            lemma_outside_keys(username, username, username, username, username, 0);
            let account = read::<ProjectAdminAccount>(s, k_project_admin(username))->Ok_0->0;
            let e = EntryView::Account(
                ProjectAdminAccountView { salt, password_hash, ..account },
            );
            lemma_put_outside(s, k_project_admin(username), e);
            let a = s.insert(k_project_admin(username), e);
            lemma_without_sessions(a, username);
            lemma_keeps_transitive(s, a, without_sessions_of(a, username));
        },
        CommandView::PaSessionLogin { username, token_hash, issued_at, expires_at, device_id } => {
            lemma_outside_keys(username, username, username, username, username, 0);
            lemma_put_outside(s, k_pa_session(username), t[k_pa_session(username)]);
        },
        CommandView::PaSessionLogout { username } => {
            lemma_outside_keys(username, username, username, username, username, 0);
            lemma_remove_one(s, k_pa_session(username));
        },
        CommandView::PaSessionHeartbeat { username, expires_at } => {
            lemma_outside_keys(username, username, username, username, username, 0);
            lemma_put_outside(s, k_pa_session(username), t[k_pa_session(username)]);
        },
        CommandView::MultiPaSessionLogin {
            username,
            token_hash,
            issued_at,
            expires_at,
            device_id,
            session_id,
        } => {
            lemma_outside_keys(username, session_id, username, username, username, 0);
            let k0 = k_pa_session_with(username, session_id);
            lemma_put_outside(s, k0, t[k0]);
        },
        CommandView::AdminSetPassword { password_hash } => {
            lemma_outside_keys(K_SESSION@, K_SESSION@, K_SESSION@, K_SESSION@, K_SESSION@, 0);
            lemma_put_outside(s, K_ADMIN_PW@, EntryView::Text(password_hash));
        },
        _ => {},
    }
}

/// A store that holds nothing is a sound state.
pub proof fn law_nothing_is_sound()
    ensures
        sound(State::empty()),
{
}

/// The active version of a branch of a sound state can be read.
pub proof fn law_active_version_is_read(s: State, id: Seq<char>, branch: Seq<char>)
    requires
        sound(s),
        branch_at(s, id, branch) matches Some(st) && st.active_version > 0,
    ensures
        snapshot(s, id, branch, branch_at(s, id, branch)->0.active_version) is Ok,
{
    lemma_branch_names(s, id, branch);
    assert(rebuilds(s, id, branch, branch_at(s, id, branch)->0.active_version));
}

/// What a branch has published does not change: a command that deletes neither a project nor a branch
/// leaves the content and the record of every version as they were.
pub proof fn law_versions_are_immutable(
    s: State,
    c: CommandView,
    now: i64,
    id: Seq<char>,
    branch: Seq<char>,
    v: u64,
)
    requires
        sound(s),
        step(s, c, now) is Ok,
        !deletes(c),
        branch_at(s, id, branch) matches Some(st) && 1 <= v <= st.active_version,
    ensures
        snapshot(step(s, c, now)->Ok_0.0, id, branch, v) == snapshot(s, id, branch, v),
        same_at(s, step(s, c, now)->Ok_0.0, k_version(id, branch, v)),
        branch_at(step(s, c, now)->Ok_0.0, id, branch) matches Some(st) && st.active_version >= v,
{
    let t = step(s, c, now)->Ok_0.0;
    law_commands_keep_states_sound(s, c, now);
    lemma_branch_names(s, id, branch);
    assert(keeps_branch(s, t, id, branch));
    assert forall|n: u64| 1 <= n <= v implies #[trigger] same_version(s, t, id, branch, n) by {}
    lemma_snapshot_same(s, t, id, branch, v);
    assert(same_version(s, t, id, branch, v));
}

/// Whether a command only prepares what is to be published.
pub open spec fn prepares(c: CommandView) -> bool {
    c is DraftUpdate || c is StructureDraftSet || c is SharedDraftUpdate || c is RefBind
        || c is RefUnbind
}

/// What is not published is not read: a command that only prepares changes no configuration.
pub proof fn law_drafts_are_not_read(
    s: State,
    c: CommandView,
    now: i64,
    id: Seq<char>,
    branch: Seq<char>,
    version: u64,
)
    requires
        sound(s),
        step(s, c, now) is Ok,
        prepares(c),
        is_part(id),
        is_part(branch),
    ensures
        config(step(s, c, now)->Ok_0.0, id, branch, version) == config(s, id, branch, version),
{
    let t = step(s, c, now)->Ok_0.0;
    match c {
        CommandView::DraftUpdate { project, branch: b, updates, deletes, operator, ts } => {
            let at = time_of(ts, now);
            lemma_draft_update(s, project, b, updates, deletes, at);
            reveal(draft_update);
            assert(branch_at(s, project, b) is Some);
            lemma_branch_names(s, project, b);
            let st = branch_at(s, project, b)->0;
            let next = t[k_branch_state(project, b)]->Branch_0;
            lemma_deletes_finite(st.value_draft, deletes);
            lemma_updates_finite(after_deletes(st.value_draft, deletes), updates, at);
            lemma_state_write(s, project, b, next);
            assert(t == s.insert(k_branch_state(project, b), EntryView::Branch(next)));
            lemma_branch_keys(project, b, 0);
            lemma_struct_parts(id);
            lemma_split_single(id, '/');
            assert(parts(k_struct(id)).len() == 3);
            assert(parts(k_branch_state(project, b)).len() == 5);
            assert(same_at(s, t, k_struct(id)));
            assert forall|n: u64| #[trigger] same_version(s, t, id, branch, n) by {}
            lemma_config_same(s, t, id, branch, version);
        },
        CommandView::StructureDraftSet { project, base_version, groups, operator } => {
            lemma_structure_draft_set(s, project, base_version, groups);
            reveal(structure_draft_set);
            lemma_words();
            lemma_struct_parts(id);
            lemma_struct_draft_parts(project);
            assert(parts(k_struct(id)).last() == "struct"@);
            assert(parts(k_struct_draft(project)).last() == "struct-draft"@);
            assert(same_at(s, t, k_struct(id)));
            lemma_config_same(s, t, id, branch, version);
        },
        CommandView::SharedDraftUpdate { item, operator } => {
            reveal(shared_draft_update);
            lemma_outside_keys(item.group, item.key, item.key, item.key, item.key, 0);
            assert forall|k: Seq<char>| in_project(k) implies #[trigger] same_at(s, t, k) by {}
            lemma_outside(s, t);
            assert(same_at(s, t, k_struct(id)));
            lemma_config_same(s, t, id, branch, version);
        },
        CommandView::RefBind { project, binding, operator } => {
            lemma_ref_bind(s, project, binding);
            assert(same_at(s, t, k_struct(id)));
            lemma_config_same(s, t, id, branch, version);
        },
        CommandView::RefUnbind { project, group, item_key, operator } => {
            lemma_ref_unbind(s, project, group, item_key);
            assert(same_at(s, t, k_struct(id)));
            lemma_config_same(s, t, id, branch, version);
        },
        _ => {},
    }
}

/// A configuration that is read from the same versions and the same structure is the same.
pub proof fn lemma_config_same(s: State, t: State, id: Seq<char>, branch: Seq<char>, version: u64)
    requires
        same_at(s, t, k_struct(id)),
        s.contains_key(k_branch_state(id, branch)) == t.contains_key(k_branch_state(id, branch)),
        s.contains_key(k_branch_state(id, branch)) ==> s[k_branch_state(id, branch)]
            == t[k_branch_state(id, branch)] || (s[k_branch_state(id, branch)] matches EntryView::Branch(
            a,
        ) && (t[k_branch_state(id, branch)] matches EntryView::Branch(b) && a.active_version
            == b.active_version)),
        forall|n: u64| #[trigger] same_version(s, t, id, branch, n),
    ensures
        config(t, id, branch, version) == config(s, id, branch, version),
{
    assert forall|v: u64| snapshot(t, id, branch, v) == #[trigger] snapshot(s, id, branch, v) by {
        lemma_snapshot_same(s, t, id, branch, v);
    }
}

} // verus!
