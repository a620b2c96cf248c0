//! Projects, their branches and their structures.
use vstd::prelude::*;

use crate::command::CommandView;
use crate::diff::same_items;
use crate::error::ErrorView;
use crate::keys::{
    K_BRANCH, K_DIFF, K_PROJECT, K_SNAP, K_STATE, K_STRUCT, K_VERSION, k_branch_prefix,
    k_branch_state, k_branches_prefix, k_diff, k_project, k_snapshot, k_struct, k_struct_draft,
    k_version,
};
use crate::laws::commands::lemma_structure_step;
use crate::laws::paths::{
    is_part, lemma_branch_parts, lemma_joined_parts, lemma_of_project, lemma_prefix_of_sum,
    lemma_struct_draft_parts, lemma_struct_parts, lemma_words, parts,
};
use crate::laws::sound::{branch_at, lemma_snapshot_same, same_at, same_version, sound};
use crate::laws::soundness::{lemma_config_same, lemma_goes_outside, lemma_whole_branch};
use crate::laws::steps::{lemma_branch_names, lemma_project_names, lemma_structure_key};
use crate::model::{EntryView, Project, SnapView, Structure, StructureDraft, StructureView};
use crate::ordmap::{has_row, lemma_listing_exists, listing};
use crate::step::{
    active_content, branch_map, branches, config, fold_steps, has_branch, read, snapshot,
};
use crate::store::State;
use crate::text::{dec, lemma_split_single, lemma_text_less_irreflexive, text_less};
use crate::transition::{
    Progress, branch_delete, draft_from, draft_values, goes_with_project, kept_draft, of_project,
    project_delete, publish_structure, step, structure_step,
};

verus! {

/// A branch that begins with the values of another would publish the same configuration.
pub proof fn law_branch_starts_with_source_values(m: SnapView, ts: i64)
    ensures
        draft_values(draft_from(m, ts)) == m,
{
    let r = draft_values(draft_from(m, ts));
    assert forall|g: Seq<char>| m.contains_key(g) implies #[trigger] r[g] == m[g] by {
        assert(r[g] =~= m[g]);
    }
    assert(r =~= m);
}

/// Deleting a project leaves nothing of it.
pub proof fn law_project_delete_leaves_nothing(
    s: State,
    id: Seq<char>,
    operator: Seq<char>,
    now: i64,
    k: Seq<char>,
)
    requires
        step(s, CommandView::ProjectDelete { id, operator }, now) is Ok,
        of_project(id, k),
    ensures
        !step(s, CommandView::ProjectDelete { id, operator }, now)->Ok_0.0.contains_key(k),
{
    reveal(project_delete);
}

/// Deleting a project changes no configuration of another whose name does not begin with its name.
pub proof fn law_project_delete_spares_others(
    s: State,
    id: Seq<char>,
    operator: Seq<char>,
    now: i64,
    other: Seq<char>,
    branch: Seq<char>,
    version: u64,
)
    requires
        sound(s),
        step(s, CommandView::ProjectDelete { id, operator }, now) is Ok,
        !id.is_prefix_of(other),
        is_part(other),
        is_part(branch),
    ensures
        config(
            step(s, CommandView::ProjectDelete { id, operator }, now)->Ok_0.0,
            other,
            branch,
            version,
        ) == config(s, other, branch, version),
{
    reveal(project_delete);
    lemma_project_names(s, id);
    let t = step(s, CommandView::ProjectDelete { id, operator }, now)->Ok_0.0;
    let name = read::<Project>(s, k_project(id))->Ok_0->0.name;
    assert forall|rest: Seq<char>| rest.len() > 0 && rest[0] == '/' implies same_at(
        s,
        t,
        #[trigger] (k_project(other) + rest),
    ) by {
        let k = k_project(other) + rest;
        lemma_prefix_of_sum(K_PROJECT@, other + rest);
        assert(k =~= K_PROJECT@ + (other + rest));
        if goes_with_project(s, id, name, k) {
            lemma_goes_outside(s, id, name, k);
            lemma_of_project(id, other, rest);
        }
    }
    reveal_strlit("/struct");
    reveal_strlit("/b/");
    assert(k_struct(other) =~= k_project(other) + K_STRUCT@);
    assert(same_at(s, t, k_struct(other)));
    let rest = K_BRANCH@ + branch + K_STATE@;
    assert(k_branch_state(other, branch) =~= k_project(other) + rest);
    assert(same_at(s, t, k_branch_state(other, branch)));
    assert forall|n: u64| #[trigger] same_version(s, t, other, branch, n) by {
        let rest = K_BRANCH@ + branch + K_VERSION@ + dec(n as nat);
        assert(k_version(other, branch, n) =~= k_project(other) + rest);
        assert(k_snapshot(other, branch, n) =~= k_project(other) + (rest + K_SNAP@));
        assert(k_diff(other, branch, n) =~= k_project(other) + (rest + K_DIFF@));
        assert((rest + K_SNAP@)[0] == '/');
        assert((rest + K_DIFF@)[0] == '/');
    }
    lemma_config_same(s, t, other, branch, version);
}

/// Deleting a branch changes no configuration of another, but for branches of the project whose names begin
/// with its name.
pub proof fn law_branch_delete_spares_others(
    s: State,
    id: Seq<char>,
    name: Seq<char>,
    operator: Seq<char>,
    now: i64,
    other: Seq<char>,
    branch: Seq<char>,
    version: u64,
)
    requires
        sound(s),
        step(s, CommandView::BranchDelete { project: id, name, operator }, now) is Ok,
        !(other == id && name.is_prefix_of(branch)),
        is_part(other),
        is_part(branch),
    ensures
        config(
            step(s, CommandView::BranchDelete { project: id, name, operator }, now)->Ok_0.0,
            other,
            branch,
            version,
        ) == config(s, other, branch, version),
{
    reveal(branch_delete);
    let t = step(s, CommandView::BranchDelete { project: id, name, operator }, now)->Ok_0.0;
    assert(branch_at(s, id, name) is Some);
    lemma_branch_names(s, id, name);
    lemma_whole_branch(id, name, other, branch, 0);
    assert(same_at(s, t, k_struct(other)));
    assert(same_at(s, t, k_branch_state(other, branch)));
    assert forall|n: u64| #[trigger] same_version(s, t, other, branch, n) by {
        lemma_whole_branch(id, name, other, branch, n);
    }
    lemma_config_same(s, t, other, branch, version);
}

// ---------------------------------------------------------------------------------------------
// Publishing a structure
// ---------------------------------------------------------------------------------------------

/// The branch is at its next version, with the structure and the same items.
pub open spec fn advanced(
    s: State,
    t: State,
    id: Seq<char>,
    branch: Seq<char>,
    structure: StructureView,
) -> bool {
    let before = branch_at(s, id, branch)->0;
    let after = branch_at(t, id, branch)->0;
    &&& branch_at(s, id, branch) is Some
    &&& branch_at(t, id, branch) is Some
    &&& after.active_version == before.active_version + 1
    &&& after.structure_version == structure.version
    &&& after.value_draft == kept_draft(before.value_draft, structure.groups)
    &&& active_content(s, id, branch, before.active_version) matches Ok(old) && (snapshot(
        t,
        id,
        branch,
        after.active_version,
    ) matches Ok(m) && same_items(m, old))
}

/// The states agree on the branch.
pub open spec fn same_branch(s: State, t: State, id: Seq<char>, branch: Seq<char>) -> bool {
    same_at(s, t, k_branch_state(id, branch)) && forall|n: u64| #[trigger]
        same_version(s, t, id, branch, n)
}

proof fn lemma_same_branch_chain(s: State, t: State, u: State, id: Seq<char>, branch: Seq<char>)
    requires
        same_branch(s, t, id, branch),
        same_branch(t, u, id, branch),
    ensures
        same_branch(s, u, id, branch),
{
    assert forall|n: u64| #[trigger] same_version(s, u, id, branch, n) by {
        assert(same_version(s, t, id, branch, n));
        assert(same_version(t, u, id, branch, n));
    }
}

/// A branch that has advanced stays so where nothing of it changes.
proof fn lemma_advanced_stays(
    s: State,
    t: State,
    u: State,
    id: Seq<char>,
    branch: Seq<char>,
    structure: StructureView,
)
    requires
        advanced(s, t, id, branch, structure),
        same_branch(t, u, id, branch),
    ensures
        advanced(s, u, id, branch, structure),
{
    lemma_snapshot_same(t, u, id, branch, branch_at(t, id, branch)->0.active_version);
}

/// A branch that advances from where it was before has advanced.
proof fn lemma_advanced_from(
    s: State,
    t: State,
    u: State,
    id: Seq<char>,
    branch: Seq<char>,
    structure: StructureView,
)
    requires
        same_branch(s, t, id, branch),
        advanced(t, u, id, branch, structure),
    ensures
        advanced(s, u, id, branch, structure),
{
    let v = branch_at(s, id, branch)->0.active_version;
    lemma_snapshot_same(s, t, id, branch, v);
}

/// The branches of a list advance, one after another, and no other does.
proof fn lemma_all_advance(
    s: State,
    list: Seq<Seq<char>>,
    id: Seq<char>,
    structure: StructureView,
    comment: Seq<char>,
    request_id: Seq<char>,
    ts: i64,
    operator: Seq<char>,
)
    requires
        sound(s),
        list.no_duplicates(),
        fold_steps(
            list,
            (s, Seq::empty()),
            |a: Progress, b: Seq<char>|
                structure_step(a, id, b, structure, comment, request_id, ts, operator),
        ) is Ok,
    ensures
        ({
            let t = fold_steps(
                list,
                (s, Seq::empty()),
                |a: Progress, b: Seq<char>|
                    structure_step(a, id, b, structure, comment, request_id, ts, operator),
            )->Ok_0.0;
            &&& sound(t)
            &&& forall|b: Seq<char>| #[trigger]
                list.contains(b) ==> is_part(b) && advanced(s, t, id, b, structure)
            &&& forall|b: Seq<char>|
                is_part(b) && !list.contains(b) ==> #[trigger] same_branch(s, t, id, b)
        }),
    decreases list.len(),
{
    let f = |a: Progress, b: Seq<char>|
        structure_step(a, id, b, structure, comment, request_id, ts, operator);
    let start: Progress = (s, Seq::empty());
    if list.len() > 0 {
        let d = list.drop_last();
        let x = list.last();
        lemma_all_advance(s, d, id, structure, comment, request_id, ts, operator);
        let a = fold_steps(d, start, f)->Ok_0;
        let t = f(a, x)->Ok_0.0;
        lemma_structure_step(a, id, x, structure, comment, request_id, ts, operator);
        assert(!d.contains(x)) by {
            if d.contains(x) {
                let i = choose|i: int| 0 <= i < d.len() && d[i] == x;
                assert(list[i] == list[list.len() - 1]);
            }
        }
        assert(same_branch(s, a.0, id, x));
        lemma_advanced_from(s, a.0, t, id, x, structure);
        assert forall|b: Seq<char>| #[trigger] list.contains(b) implies is_part(b) && advanced(
            s,
            t,
            id,
            b,
            structure,
        ) by {
            if b != x {
                let i = choose|i: int| 0 <= i < list.len() && list[i] == b;
                assert(d[i] == b);
                assert(d.contains(b));
                assert(same_at(a.0, t, k_branch_state(id, b)));
                assert forall|n: u64| #[trigger] same_version(a.0, t, id, b, n) by {}
                lemma_advanced_stays(s, a.0, t, id, b, structure);
            }
        }
        assert forall|b: Seq<char>| is_part(b) && !list.contains(b) implies #[trigger] same_branch(
            s,
            t,
            id,
            b,
        ) by {
            assert(list[list.len() - 1] == x);
            if d.contains(b) {
                let i = choose|i: int| 0 <= i < d.len() && d[i] == b;
                assert(list[i] == b);
            }
            assert(same_branch(s, a.0, id, b));
            assert(same_at(a.0, t, k_branch_state(id, b)));
            assert forall|n: u64| #[trigger] same_version(a.0, t, id, b, n) by {}
            lemma_same_branch_chain(s, a.0, t, id, b);
        }
    }
}

/// The branches of a project of a finite state are listed, each once.
pub proof fn lemma_branches_listed(s: State, id: Seq<char>)
    requires
        s.dom().finite(),
        is_part(id),
    ensures
        branches(s, id).no_duplicates(),
        forall|b: Seq<char>| #[trigger] branches(s, id).contains(b) == has_branch(s, id, b),
{
    let m = branch_map(s, id);
    // The names are among the fourth parts of the keys.
    let f = |k: Seq<char>| parts(k)[3];
    let image = s.dom().map(f);
    s.dom().lemma_map_finite(f);
    assert forall|b: Seq<char>| m.dom().contains(b) implies image.contains(b) by {
        let pre = k_branches_prefix(id) + b + "/"@;
        let k = choose|k: Seq<char>| s.contains_key(k) && pre.is_prefix_of(k);
        let rest = k.skip(pre.len() as int);
        assert(k =~= pre + rest);
        reveal_strlit("/");
        assert("/"@ =~= seq!['/']);
        lemma_branch_parts(id, b);
        lemma_split_single(id, '/');
        lemma_split_single(b, '/');
        assert(pre + rest =~= k_branch_prefix(id, b) + seq!['/'] + rest);
        lemma_joined_parts(k_branch_prefix(id, b), seq!['/'], rest);
        assert(parts(k)[3] == b);
        assert(s.dom().contains(k));
        assert(f(k) == b);
    }
    assert(m.dom().subset_of(image));
    vstd::set_lib::lemma_set_subset_finite(image, m.dom());
    lemma_listing_exists(m);
    let rows = listing(m);
    let list = branches(s, id);
    assert forall|i: int, j: int| 0 <= i < list.len() && 0 <= j < list.len() && i != j implies list[i]
        != list[j] by {
        if i < j {
            assert(text_less(rows[i].0, rows[j].0));
        } else {
            assert(text_less(rows[j].0, rows[i].0));
        }
        lemma_text_less_irreflexive(rows[i].0);
        lemma_text_less_irreflexive(rows[j].0);
    }
    assert forall|b: Seq<char>| #[trigger] list.contains(b) == has_branch(s, id, b) by {
        if list.contains(b) {
            let i = choose|i: int| 0 <= i < list.len() && list[i] == b;
            assert(m.contains_key(rows[i].0));
        }
        if has_branch(s, id, b) {
            assert(m.contains_key(b));
            assert(has_row(rows, b));
            let i = choose|i: int| 0 <= i < rows.len() && #[trigger] rows[i].0 == b;
            assert(list[i] == b);
        }
    }
}

/// What becomes of the structure after all branches have advanced.
pub open spec fn structure_put(s: State, id: Seq<char>, new: StructureView) -> State {
    s.insert(k_struct(id), EntryView::Structure(new)).remove(k_struct_draft(id))
}

/// What publishing a structure does, in parts.
pub proof fn lemma_structure_parts(
    s: State,
    id: Seq<char>,
    comment: Seq<char>,
    request_id: Seq<char>,
    ts: i64,
    operator: Seq<char>,
) -> (r: (StructureView, State))
    requires
        publish_structure(s, id, comment, request_id, ts, operator) is Ok,
    ensures
        ({
            let old = read::<Structure>(s, k_struct(id))->Ok_0->0;
            let draft = read::<StructureDraft>(s, k_struct_draft(id))->Ok_0->0;
            let all = fold_steps(
                branches(s, id),
                (s, Seq::empty()),
                |a: Progress, b: Seq<char>|
                    structure_step(a, id, b, r.0, comment, request_id, ts, operator),
            );
            &&& r.0 == (StructureView { version: (old.version + 1) as u64, groups: draft.groups })
            &&& all is Ok
            &&& r.1 == all->Ok_0.0
            &&& publish_structure(s, id, comment, request_id, ts, operator)->Ok_0.0
                == structure_put(r.1, id, r.0)
        }),
{
    reveal(publish_structure);
    let old = read::<Structure>(s, k_struct(id))->Ok_0->0;
    let draft = read::<StructureDraft>(s, k_struct_draft(id))->Ok_0->0;
    let new = StructureView { version: (old.version + 1) as u64, groups: draft.groups };
    let all = fold_steps(
        branches(s, id),
        (s, Seq::empty()),
        |a: Progress, b: Seq<char>|
            structure_step(a, id, b, new, comment, request_id, ts, operator),
    );
    (new, all->Ok_0.0)
}

/// Putting the structure leaves the branches alone.
proof fn lemma_structure_put(s: State, id: Seq<char>, new: StructureView, branch: Seq<char>)
    requires
        is_part(id),
        is_part(branch),
    ensures
        same_branch(s, structure_put(s, id, new), id, branch),
        read::<Structure>(structure_put(s, id, new), k_struct(id)) == Ok::<
            Option<StructureView>,
            ErrorView,
        >(Some(new)),
        !structure_put(s, id, new).contains_key(k_struct_draft(id)),
{
    let t = structure_put(s, id, new);
    lemma_structure_key(s, t, id);
    assert(same_at(s, t, k_branch_state(id, branch)));
    assert forall|n: u64| #[trigger] same_version(s, t, id, branch, n) by {}
    lemma_words();
    lemma_struct_parts(id);
    lemma_struct_draft_parts(id);
    assert(parts(k_struct(id)).last() == "struct"@);
    assert(parts(k_struct_draft(id)).last() == "struct-draft"@);
}

/// A branch that has a state is listed.
pub proof fn lemma_has_branch(s: State, id: Seq<char>, branch: Seq<char>)
    requires
        s.contains_key(k_branch_state(id, branch)),
        is_part(branch),
        branch.len() > 0,
    ensures
        has_branch(s, id, branch),
{
    let k = k_branch_state(id, branch);
    let pre = k_branches_prefix(id) + branch + "/"@;
    reveal_strlit("/");
    reveal_strlit("/state");
    reveal_strlit("state");
    lemma_prefix_of_sum(pre, "state"@);
    assert(k =~= pre + "state"@);
}

/// Publishing a structure advances every branch of the project by one version: with the new structure,
/// with the items that it had, and without the parts of the draft that the structure does not have. The
/// draft of the structure is published and gone.
pub proof fn law_structure_publish_advances_every_branch(
    s: State,
    id: Seq<char>,
    comment: Seq<char>,
    request_id: Seq<char>,
    ts: i64,
    operator: Seq<char>,
    branch: Seq<char>,
)
    requires
        s.dom().finite(),
        sound(s),
        publish_structure(s, id, comment, request_id, ts, operator) is Ok,
        branch.len() > 0,
        branch_at(s, id, branch) is Some,
    ensures
        ({
            let t = publish_structure(s, id, comment, request_id, ts, operator)->Ok_0.0;
            let old = read::<Structure>(s, k_struct(id))->Ok_0->0;
            let draft = read::<StructureDraft>(s, k_struct_draft(id))->Ok_0->0;
            let new = StructureView { version: (old.version + 1) as u64, groups: draft.groups };
            &&& read::<Structure>(t, k_struct(id)) == Ok::<Option<StructureView>, ErrorView>(Some(new))
            &&& !t.contains_key(k_struct_draft(id))
            &&& advanced(s, t, id, branch, new)
        }),
{
    lemma_branch_names(s, id, branch);
    let (new, a) = lemma_structure_parts(s, id, comment, request_id, ts, operator);
    let list = branches(s, id);
    lemma_branches_listed(s, id);
    lemma_has_branch(s, id, branch);
    assert(list.contains(branch));
    lemma_all_advance(s, list, id, new, comment, request_id, ts, operator);
    lemma_structure_put(a, id, new, branch);
    lemma_advanced_stays(s, a, structure_put(a, id, new), id, branch, new);
}

} // verus!
