//! Every command leads from a sound state to a sound state, and only a deletion takes versions away.
use vstd::prelude::*;

use crate::error::ErrorView;
use crate::keys::{
    K_REF, k_branch_state, k_diff, k_project, k_ref, k_refs_prefix, k_snapshot, k_struct,
    k_struct_draft, k_version,
};
use crate::laws::paths::{
    in_project, is_part, law_state_key_is_no_version_key, lemma_branch_keys, lemma_in_project,
    lemma_parts_around, lemma_prefix_of_sum, lemma_project_name, lemma_project_parts,
    lemma_state_names, lemma_struct_draft_parts, lemma_struct_name, lemma_struct_parts,
    lemma_words, parts,
};
use crate::laws::sound::{
    all_placed, branch_at, finite_draft, in_place, is_branch_key, is_ref_key, lemma_base,
    lemma_rebuild_same, rebuilds, same_at, same_version, sound,
};
use crate::laws::versions::{keeps, keeps_branch, lemma_branch_same};
use crate::model::{BranchStateView, EntryView, Project, Structure};
use crate::step::{base_of, fold_steps, read};
use crate::store::State;
use crate::text::{dec, is_digit, lemma_dec_value, lemma_split_nonempty, lemma_split_single};

verus! {

/// What holds at the start and is kept by every step holds at the end.
pub proof fn lemma_fold_keeps<A, X>(
    xs: Seq<X>,
    a: A,
    f: spec_fn(A, X) -> Result<A, ErrorView>,
    p: spec_fn(A) -> bool,
)
    requires
        p(a),
        forall|b: A, x: X| p(b) && (#[trigger] f(b, x)) is Ok ==> p(f(b, x)->Ok_0),
    ensures
        fold_steps(xs, a, f) is Ok ==> p(fold_steps(xs, a, f)->Ok_0),
    decreases xs.len(),
{
    if xs.len() > 0 {
        lemma_fold_keeps(xs.drop_last(), a, f, p);
        if fold_steps(xs, a, f) is Ok {
            let b = fold_steps(xs.drop_last(), a, f)->Ok_0;
            assert(f(b, xs.last()) is Ok);
        }
    }
}

// ---------------------------------------------------------------------------------------------
// Names
// ---------------------------------------------------------------------------------------------

/// A branch that is found has proper names.
pub proof fn lemma_branch_names(s: State, id: Seq<char>, branch: Seq<char>)
    requires
        all_placed(s),
        branch_at(s, id, branch) is Some,
    ensures
        is_part(id),
        is_part(branch),
        s.contains_key(k_branch_state(id, branch)),
        s[k_branch_state(id, branch)] == EntryView::Branch(branch_at(s, id, branch)->0),
        finite_draft(branch_at(s, id, branch)->0.value_draft),
{
    let k = k_branch_state(id, branch);
    assert(s.contains_key(k));
    assert(in_place(k, s[k]));
    let (i, b) = choose|i: Seq<char>, b: Seq<char>|
        is_part(i) && is_part(b) && k == #[trigger] k_branch_state(i, b);
    lemma_state_names(id, branch, i, b);
}

/// A project whose structure is found has a proper name.
pub proof fn lemma_struct_names(s: State, id: Seq<char>)
    requires
        all_placed(s),
        read::<Structure>(s, k_struct(id)) matches Ok(Some(_)),
    ensures
        is_part(id),
{
    let k = k_struct(id);
    assert(in_place(k, s[k]));
    let i = choose|i: Seq<char>| is_part(i) && k == #[trigger] k_struct(i);
    lemma_struct_name(id, i);
}

/// A project that is found has a proper name.
pub proof fn lemma_project_names(s: State, id: Seq<char>)
    requires
        all_placed(s),
        read::<Project>(s, k_project(id)) matches Ok(Some(_)),
    ensures
        is_part(id),
{
    let k = k_project(id);
    assert(in_place(k, s[k]));
    let i = choose|i: Seq<char>| is_part(i) && k == #[trigger] k_project(i);
    lemma_project_name(id, i);
}

// ---------------------------------------------------------------------------------------------
// What leaves branches and versions alone
// ---------------------------------------------------------------------------------------------

/// The states agree on the states of branches and on versions.
pub open spec fn same_branches(s: State, t: State) -> bool {
    &&& forall|i: Seq<char>, b: Seq<char>|
        is_part(i) && is_part(b) ==> same_at(s, t, #[trigger] k_branch_state(i, b))
    &&& forall|i: Seq<char>, b: Seq<char>, n: u64|
        is_part(i) && is_part(b) ==> #[trigger] same_version(s, t, i, b, n)
}

/// Where branches and versions are the same, nothing is lost.
pub proof fn lemma_same_branches(s: State, t: State)
    requires
        sound(s),
        all_placed(t),
        same_branches(s, t),
        forall|i: Seq<char>|
            is_part(i) && s.contains_key(#[trigger] k_project(i)) ==> t.contains_key(k_project(i)),
    ensures
        sound(t),
        keeps(s, t),
{
    assert forall|i: Seq<char>, b: Seq<char>| is_part(i) && is_part(b) implies (#[trigger] branch_at(
        t,
        i,
        b,
    )) == branch_at(s, i, b) && (branch_at(s, i, b) is Some ==> keeps_branch(s, t, i, b)) && (
    forall|v: u64| v > 0 ==> #[trigger] rebuilds(t, i, b, v) == rebuilds(s, i, b, v)) by {
        assert(same_at(s, t, k_branch_state(i, b)));
        assert forall|n: u64| #[trigger] same_version(s, t, i, b, n) by {}
        lemma_branch_same(s, t, i, b);
    }
    assert forall|i: Seq<char>, b: Seq<char>|
        is_part(i) && is_part(b) && (#[trigger] branch_at(s, i, b)) is Some implies keeps_branch(
        s,
        t,
        i,
        b,
    ) by {
        assert(branch_at(t, i, b) == branch_at(s, i, b));
    }
    assert forall|i: Seq<char>, b: Seq<char>, n: u64|
        is_part(i) && is_part(b) && t.contains_key(#[trigger] k_version(i, b, n)) implies (branch_at(
        t,
        i,
        b,
    ) matches Some(x) && 1 <= n <= x.active_version) by {
        assert(same_version(s, t, i, b, n));
        assert(branch_at(t, i, b) == branch_at(s, i, b));
    }
}

/// A change outside of the projects.
pub proof fn lemma_outside(s: State, t: State)
    requires
        forall|k: Seq<char>| in_project(k) ==> #[trigger] same_at(s, t, k),
    ensures
        same_branches(s, t),
        forall|i: Seq<char>| same_at(s, t, #[trigger] k_project(i)),
        forall|i: Seq<char>| same_at(s, t, #[trigger] k_struct(i)),
{
    assert forall|i: Seq<char>, b: Seq<char>| is_part(i) && is_part(b) implies same_at(
        s,
        t,
        #[trigger] k_branch_state(i, b),
    ) by {
        lemma_in_project(i, b, 0);
    }
    assert forall|i: Seq<char>, b: Seq<char>, n: u64|
        is_part(i) && is_part(b) implies #[trigger] same_version(s, t, i, b, n) by {
        lemma_in_project(i, b, n);
    }
    assert forall|i: Seq<char>| same_at(s, t, #[trigger] k_project(i)) by {
        lemma_in_project(i, i, 0);
    }
    assert forall|i: Seq<char>| same_at(s, t, #[trigger] k_struct(i)) by {
        lemma_in_project(i, i, 0);
    }
}

/// A change at the key of a structure or of its draft.
pub proof fn lemma_structure_key(s: State, t: State, id: Seq<char>)
    requires
        forall|k: Seq<char>|
            k != k_struct(id) && k != k_struct_draft(id) ==> #[trigger] same_at(s, t, k),
    ensures
        same_branches(s, t),
        is_part(id) ==> forall|i: Seq<char>|
            is_part(i) ==> same_at(s, t, #[trigger] k_project(i)),
{
    lemma_words();
    lemma_struct_parts(id);
    lemma_struct_draft_parts(id);
    let p = parts(k_struct(id));
    let q = parts(k_struct_draft(id));
    assert(p.last() == "struct"@);
    assert(q.last() == "struct-draft"@);
    assert forall|i: Seq<char>, b: Seq<char>| is_part(i) && is_part(b) implies same_at(
        s,
        t,
        #[trigger] k_branch_state(i, b),
    ) by {
        lemma_branch_keys(i, b, 0);
        assert(parts(k_branch_state(i, b)).last() == "state"@);
    }
    assert forall|i: Seq<char>, b: Seq<char>, n: u64|
        is_part(i) && is_part(b) implies #[trigger] same_version(s, t, i, b, n) by {
        lemma_branch_keys(i, b, n);
        assert(parts(k_snapshot(i, b, n)).last() == "snap"@);
        assert(parts(k_diff(i, b, n)).last() == "diff"@);
        lemma_dec_value(n as nat);
        assert(parts(k_version(i, b, n)).last() == dec(n as nat));
        assert(is_digit(dec(n as nat)[0]));
        reveal_strlit("struct");
        reveal_strlit("struct-draft");
        assert("struct"@[0] == 's');
        assert("struct-draft"@[0] == 's');
    }
    if is_part(id) {
        lemma_split_single(id, '/');
        assert forall|i: Seq<char>| is_part(i) implies same_at(s, t, #[trigger] k_project(i)) by {
            lemma_project_parts(i);
            lemma_split_single(i, '/');
            assert(parts(k_project(i)).len() == 2);
            assert(p.len() == 3 && q.len() == 3);
        }
    }
}

/// A change under the references of a project.
pub proof fn lemma_ref_keys(s: State, t: State, k0: Seq<char>)
    requires
        is_ref_key(k0),
        forall|k: Seq<char>| in_project(k) && k != k0 ==> #[trigger] same_at(s, t, k),
    ensures
        same_branches(s, t),
        forall|i: Seq<char>| is_part(i) ==> same_at(s, t, #[trigger] k_project(i)),
        forall|i: Seq<char>| is_part(i) ==> same_at(s, t, #[trigger] k_struct(i)),
{
    let id = choose|id: Seq<char>| is_part(id) && (#[trigger] k_refs_prefix(id)).is_prefix_of(k0);
    let rest = k0.skip(k_refs_prefix(id).len() as int);
    assert(k0 =~= k_refs_prefix(id) + rest);
    reveal_strlit("/refs/");
    reveal_strlit("refs");
    assert(K_REF@ =~= seq!['/'] + "refs"@ + seq!['/']);
    lemma_project_parts(id);
    lemma_split_single(id, '/');
    lemma_parts_around(k_project(id), "refs"@, rest);
    let p = parts(k0);
    lemma_split_nonempty(rest, '/');
    assert(p[2] == "refs"@ && p.len() >= 4);
    reveal_strlit("b");
    assert("b"@.len() != "refs"@.len());
    assert forall|i: Seq<char>, b: Seq<char>| is_part(i) && is_part(b) implies same_at(
        s,
        t,
        #[trigger] k_branch_state(i, b),
    ) by {
        lemma_in_project(i, b, 0);
        lemma_branch_keys(i, b, 0);
        assert(parts(k_branch_state(i, b))[2] == "b"@);
    }
    assert forall|i: Seq<char>, b: Seq<char>, n: u64|
        is_part(i) && is_part(b) implies #[trigger] same_version(s, t, i, b, n) by {
        lemma_in_project(i, b, n);
        lemma_branch_keys(i, b, n);
        assert(parts(k_version(i, b, n))[2] == "b"@);
        assert(parts(k_snapshot(i, b, n))[2] == "b"@);
        assert(parts(k_diff(i, b, n))[2] == "b"@);
    }
    assert forall|i: Seq<char>| is_part(i) implies same_at(s, t, #[trigger] k_project(i)) by {
        lemma_in_project(i, i, 0);
        lemma_project_parts(i);
        lemma_split_single(i, '/');
        assert(parts(k_project(i)).len() == 2);
    }
    assert forall|i: Seq<char>| is_part(i) implies same_at(s, t, #[trigger] k_struct(i)) by {
        lemma_in_project(i, i, 0);
        lemma_struct_parts(i);
        lemma_split_single(i, '/');
        assert(parts(k_struct(i)).len() == 3);
    }
}

/// A reference stands under the references of its project.
pub proof fn lemma_ref_key_placed(id: Seq<char>, group: Seq<char>, item_key: Option<Seq<char>>)
    requires
        is_part(id),
    ensures
        is_ref_key(k_ref(id, group, item_key)),
{
    let pre = k_refs_prefix(id);
    match item_key {
        Some(k) => {
            lemma_prefix_of_sum(pre, group + "/"@ + k);
            assert(k_ref(id, group, item_key) =~= pre + (group + "/"@ + k));
        },
        None => {
            lemma_prefix_of_sum(pre, group);
            assert(k_ref(id, group, item_key) =~= pre + group);
        },
    }
}

/// The state of a branch with another draft.
pub proof fn lemma_state_write(s: State, id: Seq<char>, branch: Seq<char>, st: BranchStateView)
    requires
        sound(s),
        branch_at(s, id, branch) is Some,
        st.active_version == branch_at(s, id, branch)->0.active_version,
        finite_draft(st.value_draft),
    ensures
        sound(s.insert(k_branch_state(id, branch), EntryView::Branch(st))),
        keeps(s, s.insert(k_branch_state(id, branch), EntryView::Branch(st))),
        forall|i: Seq<char>, b: Seq<char>, n: u64|
            is_part(i) && is_part(b) ==> #[trigger] same_version(
                s,
                s.insert(k_branch_state(id, branch), EntryView::Branch(st)),
                i,
                b,
                n,
            ),
{
    let k0 = k_branch_state(id, branch);
    let t = s.insert(k0, EntryView::Branch(st));
    lemma_branch_names(s, id, branch);
    assert(is_branch_key(k0));
    assert forall|i: Seq<char>, b: Seq<char>, n: u64|
        is_part(i) && is_part(b) implies #[trigger] same_version(s, t, i, b, n) by {
        law_state_key_is_no_version_key(id, branch, i, b, n);
    }
    assert forall|k: Seq<char>| #[trigger] t.contains_key(k) implies in_place(k, t[k]) by {
        if k != k0 {
            assert(s.contains_key(k));
        }
    }
    assert forall|i: Seq<char>, b: Seq<char>| is_part(i) && is_part(b) implies ((#[trigger] branch_at(
        t,
        i,
        b,
    )) is Some) == (branch_at(s, i, b) is Some) && (branch_at(s, i, b) is Some ==> branch_at(t, i, b)->0.active_version
        == branch_at(s, i, b)->0.active_version && keeps_branch(s, t, i, b)) && (forall|v: u64|
        v > 0 ==> #[trigger] rebuilds(t, i, b, v) == rebuilds(s, i, b, v)) by {
        if k_branch_state(i, b) == k0 {
            lemma_state_names(id, branch, i, b);
        }
        assert forall|v: u64| v > 0 implies #[trigger] rebuilds(t, i, b, v) == rebuilds(s, i, b, v) by {
            lemma_base(v as int);
            assert forall|n: u64| #[trigger] same_version(s, t, i, b, n) by {}
            lemma_rebuild_same(s, t, i, b, base_of(v as int), v as int);
        }
    }
    assert forall|i: Seq<char>, b: Seq<char>|
        is_part(i) && is_part(b) && (#[trigger] branch_at(s, i, b)) is Some implies keeps_branch(
        s,
        t,
        i,
        b,
    ) by {
        assert(branch_at(t, i, b) is Some);
    }
    assert forall|i: Seq<char>, b: Seq<char>|
        is_part(i) && is_part(b) && (#[trigger] branch_at(t, i, b)) is Some implies t.contains_key(
        k_project(i),
    ) by {
        assert(branch_at(s, i, b) is Some);
        assert(s.contains_key(k_project(i)));
    }
    assert forall|i: Seq<char>, b: Seq<char>, n: u64|
        is_part(i) && is_part(b) && t.contains_key(#[trigger] k_version(i, b, n)) implies (branch_at(
        t,
        i,
        b,
    ) matches Some(x) && 1 <= n <= x.active_version) by {
        assert(same_version(s, t, i, b, n));
        assert(s.contains_key(k_version(i, b, n)));
        assert(branch_at(t, i, b) is Some);
    }
}

/// A new branch without versions.
pub proof fn lemma_new_branch(s: State, id: Seq<char>, branch: Seq<char>, st: BranchStateView)
    requires
        sound(s),
        is_part(id),
        is_part(branch),
        branch_at(s, id, branch) is None,
        s.contains_key(k_project(id)),
        st.active_version == 0,
        finite_draft(st.value_draft),
    ensures
        sound(s.insert(k_branch_state(id, branch), EntryView::Branch(st))),
        keeps(s, s.insert(k_branch_state(id, branch), EntryView::Branch(st))),
        branch_at(s.insert(k_branch_state(id, branch), EntryView::Branch(st)), id, branch) == Some(st),
{
    let k0 = k_branch_state(id, branch);
    let t = s.insert(k0, EntryView::Branch(st));
    assert(is_branch_key(k0));
    assert forall|k: Seq<char>| #[trigger] t.contains_key(k) implies in_place(k, t[k]) by {
        if k != k0 {
            assert(s.contains_key(k));
        }
    }
    assert forall|i: Seq<char>, b: Seq<char>|
        is_part(i) && is_part(b) && !(i == id && b == branch) implies (#[trigger] branch_at(t, i, b))
        == branch_at(s, i, b) && (branch_at(s, i, b) is Some ==> keeps_branch(s, t, i, b)) && (
    forall|v: u64| v > 0 ==> #[trigger] rebuilds(t, i, b, v) == rebuilds(s, i, b, v)) by {
        if k_branch_state(i, b) == k0 {
            lemma_state_names(id, branch, i, b);
        }
        assert(same_at(s, t, k_branch_state(i, b)));
        assert forall|n: u64| #[trigger] same_version(s, t, i, b, n) by {
            law_state_key_is_no_version_key(id, branch, i, b, n);
        }
        lemma_branch_same(s, t, i, b);
    }
    assert forall|i: Seq<char>, b: Seq<char>|
        is_part(i) && is_part(b) && (#[trigger] branch_at(s, i, b)) is Some implies keeps_branch(
        s,
        t,
        i,
        b,
    ) by {
        assert(branch_at(t, i, b) == branch_at(s, i, b));
    }
    assert forall|i: Seq<char>, b: Seq<char>|
        is_part(i) && is_part(b) && (#[trigger] branch_at(t, i, b)) is Some implies t.contains_key(
        k_project(i),
    ) by {
        if !(i == id && b == branch) {
            assert(branch_at(s, i, b) is Some);
            assert(s.contains_key(k_project(i)));
        }
    }
    assert forall|i: Seq<char>, b: Seq<char>, n: u64|
        is_part(i) && is_part(b) && t.contains_key(#[trigger] k_version(i, b, n)) implies (branch_at(
        t,
        i,
        b,
    ) matches Some(x) && 1 <= n <= x.active_version) by {
        law_state_key_is_no_version_key(id, branch, i, b, n);
        assert(s.contains_key(k_version(i, b, n)));
        assert(branch_at(s, i, b) is Some);
        assert(branch_at(t, i, b) == branch_at(s, i, b));
    }
}

} // verus!
