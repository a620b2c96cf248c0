//! The index of references: every mark stands for a reference that is there.
use vstd::prelude::*;

use crate::command::CommandView;
use crate::diff::put_item;
use crate::gather::gather;
use crate::keys::{
    K_ADMIN_PW, K_AUDIT_SEQ, K_BRANCH, K_DIFF, K_IDX_REF, K_IDX_REFG, K_PROJECT, K_REF, K_SESSION,
    K_SESSIONS, K_SHARED_DRAFT, K_SNAP, K_STATE, K_VERSION, k_admin_session, k_audit,
    k_branch_prefix, k_branch_state, k_diff, k_idx_pname, k_idx_ref, k_idx_refg, k_pa_session,
    k_pa_session_with, k_pa_sessions_prefix, k_project, k_project_admin, k_ref, k_shared,
    k_shared_draft, k_snapshot, k_struct, k_struct_draft, k_version,
};
use crate::laws::checks::{
    is_fine_group, is_fine_item, is_fine_name, is_name_char, law_well_formed_structures_pass,
};
use crate::laws::commands::{lemma_cascade_branch, lemma_structure_step};
use crate::laws::paths::{
    belongs_to, is_part, law_names_are_parts, lemma_belongs_to, lemma_branch_keys,
    lemma_joined_parts, lemma_of_project, lemma_parts_around, lemma_prefix_of_sum,
    lemma_project_parts, lemma_struct_draft_parts, lemma_struct_parts, parts,
};
use crate::laws::projects::lemma_structure_parts;
use crate::laws::shared::{
    Place, carried, item_put, lemma_fold_keeps_listed, lemma_index_letters, lemma_index_rows,
    lemma_one_follows, lemma_put_keeps, lemma_shared_put, lemma_step_keeps, published,
};
use crate::laws::sound::{branch_at, same_at, sound};
use crate::laws::soundness::{lemma_goes_outside, lemma_project_keys};
use crate::laws::steps::{
    lemma_branch_names, lemma_fold_keeps, lemma_project_names, lemma_struct_names,
};
use crate::laws::upkeep::{last_number, lemma_gather_member, lemma_sorted_member};
use crate::laws::versions::extended;
use crate::limits::MAX_PROJECT_NAME_BYTES;
use crate::model::{
    BranchStateView, EntryView, EventType, GroupDefView, ItemDefView, Project, ProjectView,
    RefBinding, RefBindingView, SharedItem, SharedItemView, SnapView, Structure,
    StructureDraftView, StructureView, ValueView, VersionKind, VersionRecordView, new_branch,
};
use crate::ordmap::lemma_listing_exists;
use crate::step::{
    active_content, branches, fold_steps, is_project_name, read, row_shared, shared_under,
    snapshot,
};
use crate::store::{State, scan, under};
use crate::text::{dec, lemma_split_join, lemma_split_len, lemma_split_nonempty, lemma_split_single};
use crate::transition::{
    Progress, account_create, account_delete, account_login, account_set_password,
    account_single_login, audit_append, branch_create, branch_delete, cascade, cascade_branch,
    cascade_group_row, cascade_item_row, def_in, draft_update, goes_with_project, group_index,
    kept_draft, mark_of, materialised, of_branch, operator_of, project_create, project_delete,
    prolong, publish, publish_structure, ref_bind, ref_mark, ref_unbind, rollback, session_login,
    session_of, shared_draft_update, shared_publish, shared_step, step, structure_draft_set,
    structure_step, target, time_of, with_project, without_ref,
};
use crate::validator::{is_key_name, key_char, structure_errors};

verus! {

/// The name, where there is one, is one part of a key.
pub open spec fn is_part_or_none(name: Option<Seq<char>>) -> bool {
    name matches Some(x) ==> is_part(x)
}

/// A reference between proper names.
pub open spec fn is_proper(b: RefBindingView) -> bool {
    is_part(b.group) && is_part_or_none(b.item_key) && is_part(b.shared_group) && is_part(b.shared_key)
}

/// The project has the reference.
pub open spec fn bound_as(s: State, id: Seq<char>, b: RefBindingView) -> bool {
    &&& is_part(id)
    &&& is_proper(b)
    &&& s.contains_key(k_ref(id, b.group, b.item_key))
    &&& s[k_ref(id, b.group, b.item_key)] == EntryView::Ref(b)
}

/// Whether the key marks a reference.
pub open spec fn is_mark(k: Seq<char>) -> bool {
    K_IDX_REF@.is_prefix_of(k) || K_IDX_REFG@.is_prefix_of(k)
}

/// Whether a reference may stand under the key.
pub open spec fn is_binding_key(k: Seq<char>) -> bool {
    exists|id: Seq<char>, g: Seq<char>, i: Option<Seq<char>>|
        is_part(id) && is_part(g) && is_part_or_none(i) && k == #[trigger] k_ref(id, g, i)
}

/// The groups and their items have proper names.
pub open spec fn are_named(groups: Seq<GroupDefView>) -> bool {
    forall|i: int|
        0 <= i < groups.len() ==> is_part((#[trigger] groups[i]).name) && forall|j: int|
            0 <= j < groups[i].items.len() ==> is_part((#[trigger] groups[i].items[j]).key)
}

/// The names in an entry are proper, and a reference stands under its own key.
pub open spec fn is_fit(k: Seq<char>, e: EntryView) -> bool {
    match e {
        EntryView::Structure(x) => are_named(x.groups),
        EntryView::Shared(x) => is_part(x.group) && is_part(x.key),
        EntryView::Ref(b) => is_proper(b) && exists|id: Seq<char>|
            is_part(id) && k == #[trigger] k_ref(id, b.group, b.item_key),
        _ => true,
    }
}

/// Whether the mark stands for a reference that is there.
pub open spec fn is_backed(s: State, k: Seq<char>) -> bool {
    exists|id: Seq<char>, b: RefBindingView| #[trigger] bound_as(s, id, b) && k == mark_of(id, b)
}

/// The names are proper, and every mark stands for a reference that is there.
#[verifier::opaque]
pub open spec fn indexed(s: State) -> bool {
    &&& forall|k: Seq<char>| #[trigger] s.contains_key(k) ==> is_fit(k, s[k])
    &&& forall|k: Seq<char>| #[trigger] s.contains_key(k) && is_mark(k) ==> is_backed(s, k)
}

/// Neither a reference nor a mark stands under the key.
pub open spec fn is_plain(k: Seq<char>) -> bool {
    !is_mark(k) && !is_binding_key(k)
}

/// A state that differs elsewhere only stays indexed.
proof fn lemma_change(s: State, t: State)
    requires
        indexed(s),
        forall|k: Seq<char>|
            !#[trigger] same_at(s, t, k) ==> is_plain(k) && (t.contains_key(k) ==> !(t[k] is Ref)
                && is_fit(k, t[k])),
    ensures
        indexed(t),
{
    reveal(indexed);
    assert forall|k: Seq<char>| #[trigger] t.contains_key(k) implies is_fit(k, t[k]) by {
        if same_at(s, t, k) {
            assert(s.contains_key(k));
        }
    }
    assert forall|k: Seq<char>| #[trigger] t.contains_key(k) && is_mark(k) implies is_backed(t, k) by {
        assert(same_at(s, t, k));
        assert(s.contains_key(k));
        let (id, b) = choose|id: Seq<char>, b: RefBindingView| #[trigger]
            bound_as(s, id, b) && k == mark_of(id, b);
        assert(is_binding_key(k_ref(id, b.group, b.item_key)));
        assert(same_at(s, t, k_ref(id, b.group, b.item_key)));
        assert(bound_as(t, id, b));
    }
}

/// The parts of the key of a reference.
proof fn lemma_ref_parts(id: Seq<char>, g: Seq<char>, i: Option<Seq<char>>)
    requires
        is_part(id),
        is_part(g),
        is_part_or_none(i),
    ensures
        parts(k_ref(id, g, i)) == match i {
            Some(x) => seq!["p"@, id, "refs"@, g, x],
            None => seq!["p"@, id, "refs"@, g],
        },
{
    let rest = match i {
        Some(x) => g + "/"@ + x,
        None => g,
    };
    reveal_strlit("/refs/");
    reveal_strlit("refs");
    reveal_strlit("/");
    assert("/"@ =~= seq!['/']);
    assert(K_REF@ =~= seq!['/'] + "refs"@ + seq!['/']);
    assert(k_ref(id, g, i) =~= k_project(id) + K_REF@ + rest);
    lemma_project_parts(id);
    lemma_split_single(id, '/');
    lemma_split_single(g, '/');
    lemma_parts_around(k_project(id), "refs"@, rest);
    match i {
        Some(x) => {
            lemma_split_single(x, '/');
            lemma_joined_parts(g, "/"@, x);
            assert(parts(rest) =~= seq![g, x]);
            assert(parts(k_ref(id, g, i)) =~= seq!["p"@, id, "refs"@, g, x]);
        },
        None => {
            assert(parts(k_ref(id, g, i)) =~= seq!["p"@, id, "refs"@, g]);
        },
    }
}

/// A reference stands under one key, and a key has place for one reference.
proof fn lemma_same_ref(
    id: Seq<char>,
    g: Seq<char>,
    i: Option<Seq<char>>,
    id2: Seq<char>,
    g2: Seq<char>,
    i2: Option<Seq<char>>,
)
    requires
        is_part(id) && is_part(g) && is_part_or_none(i),
        is_part(id2) && is_part(g2) && is_part_or_none(i2),
        k_ref(id, g, i) == k_ref(id2, g2, i2),
    ensures
        id == id2 && g == g2 && i == i2,
{
    lemma_ref_parts(id, g, i);
    lemma_ref_parts(id2, g2, i2);
    let p = parts(k_ref(id, g, i));
    assert(p[1] == id && p[3] == g);
    assert(p[1] == id2 && p[3] == g2);
    if p.len() == 5 {
        assert(i is Some && i2 is Some);
        assert(p[4] == i->0 && p[4] == i2->0);
    }
}

/// Keys outside of projects and indexes are plain.
proof fn lemma_other_letters_plain()
    ensures
        forall|k: Seq<char>|
            k.len() == 0 || (k[0] != 'p' && k[0] != 'i') ==> #[trigger] is_plain(k),
{
    reveal_strlit("p/");
    reveal_strlit("idx/ref/");
    reveal_strlit("idx/refg/");
    assert forall|k: Seq<char>| k.len() == 0 || (k[0] != 'p' && k[0] != 'i') implies #[trigger] is_plain(
        k,
    ) by {
        if K_IDX_REF@.is_prefix_of(k) {
            assert(K_IDX_REF@[0] == k[0]);
        }
        if K_IDX_REFG@.is_prefix_of(k) {
            assert(K_IDX_REFG@[0] == k[0]);
        }
        if is_binding_key(k) {
            let (id, g, i) = choose|id: Seq<char>, g: Seq<char>, i: Option<Seq<char>>|
                is_part(id) && is_part(g) && is_part_or_none(i) && k == #[trigger] k_ref(id, g, i);
            assert(k_ref(id, g, i)[0] == 'p');
        }
    }
}

/// The keys of a project and of its branches are plain.
proof fn lemma_project_keys_plain(id: Seq<char>, branch: Seq<char>, no: u64)
    requires
        is_part(id),
        is_part(branch),
    ensures
        is_plain(k_project(id)),
        is_plain(k_struct(id)),
        is_plain(k_struct_draft(id)),
        is_plain(k_branch_state(id, branch)),
        is_plain(k_version(id, branch, no)),
        is_plain(k_snapshot(id, branch, no)),
        is_plain(k_diff(id, branch, no)),
{
    reveal_strlit("p/");
    reveal_strlit("idx/ref/");
    reveal_strlit("idx/refg/");
    reveal_strlit("refs");
    reveal_strlit("b");
    lemma_split_single(id, '/');
    lemma_project_parts(id);
    lemma_struct_parts(id);
    lemma_struct_draft_parts(id);
    lemma_branch_keys(id, branch, no);
    assert forall|k: Seq<char>|
        k.len() > 0 && k[0] == 'p' && (parts(k).len() < 4 || parts(k).len() > 5 || parts(k)[2]
            == "b"@) implies #[trigger] is_plain(k) by {
        if K_IDX_REF@.is_prefix_of(k) {
            assert(K_IDX_REF@[0] == k[0]);
        }
        if K_IDX_REFG@.is_prefix_of(k) {
            assert(K_IDX_REFG@[0] == k[0]);
        }
        if is_binding_key(k) {
            let (i, g, x) = choose|i: Seq<char>, g: Seq<char>, x: Option<Seq<char>>|
                is_part(i) && is_part(g) && is_part_or_none(x) && k == #[trigger] k_ref(i, g, x);
            lemma_ref_parts(i, g, x);
            assert(parts(k)[2] == "refs"@);
            assert("refs"@.len() != "b"@.len());
        }
    }
    assert(k_project(id)[0] == 'p' && k_struct(id)[0] == 'p' && k_struct_draft(id)[0] == 'p');
    assert(k_branch_state(id, branch)[0] == 'p' && k_version(id, branch, no)[0] == 'p');
    assert(k_snapshot(id, branch, no)[0] == 'p' && k_diff(id, branch, no)[0] == 'p');
    assert(parts(k_project(id)).len() == 2);
    assert(parts(k_struct(id)).len() == 3);
    assert(parts(k_struct_draft(id)).len() == 3);
    assert(parts(k_branch_state(id, branch))[2] == "b"@);
}

/// An entry under a plain key.
proof fn lemma_put(s: State, k: Seq<char>, e: EntryView)
    requires
        indexed(s),
        is_plain(k),
        !(e is Ref) && is_fit(k, e),
    ensures
        indexed(s.insert(k, e)),
{
    let t = s.insert(k, e);
    assert forall|x: Seq<char>| !#[trigger] same_at(s, t, x) implies is_plain(x) && (t.contains_key(x)
        ==> !(t[x] is Ref) && is_fit(x, t[x])) by {
        assert(x == k);
    }
    lemma_change(s, t);
}

/// A plain key less.
proof fn lemma_take(s: State, k: Seq<char>)
    requires
        indexed(s),
        is_plain(k),
    ensures
        indexed(s.remove(k)),
{
    let t = s.remove(k);
    assert forall|x: Seq<char>| !#[trigger] same_at(s, t, x) implies is_plain(x) && (t.contains_key(x)
        ==> !(t[x] is Ref) && is_fit(x, t[x])) by {
        assert(x == k);
    }
    lemma_change(s, t);
}

/// One more version of a branch.
proof fn lemma_extended_indexed(
    s: State,
    id: Seq<char>,
    branch: Seq<char>,
    old: SnapView,
    new: SnapView,
    record: VersionRecordView,
    st: BranchStateView,
)
    requires
        indexed(s),
        is_part(id),
        is_part(branch),
    ensures
        indexed(extended(s, id, branch, old, new, record, st)),
{
    let no = record.no;
    lemma_project_keys_plain(id, branch, no);
    let t = extended(s, id, branch, old, new, record, st);
    assert forall|x: Seq<char>| !#[trigger] same_at(s, t, x) implies is_plain(x) && (t.contains_key(x)
        ==> !(t[x] is Ref) && is_fit(x, t[x])) by {
        assert(x == k_branch_state(id, branch) || x == k_version(id, branch, no) || x == k_snapshot(
            id,
            branch,
            no,
        ) || x == k_diff(id, branch, no));
    }
    lemma_change(s, t);
}

/// The names that a structure without errors has.
proof fn lemma_names_checked(groups: Seq<GroupDefView>)
    requires
        structure_errors(groups).len() == 0,
    ensures
        are_named(groups),
{
    law_well_formed_structures_pass(groups);
    assert forall|i: int| 0 <= i < groups.len() implies is_part((#[trigger] groups[i]).name) && forall|
        j: int,
    |
        0 <= j < groups[i].items.len() ==> is_part((#[trigger] groups[i].items[j]).key) by {
        let g = groups[i];
        assert(is_fine_group(groups[i]));
        lemma_fine_name_is_part(g.name);
        assert forall|j: int| 0 <= j < g.items.len() implies is_part((#[trigger] g.items[j]).key) by {
            assert(is_fine_item(g.items[j]));
            lemma_fine_name_is_part(g.items[j].key);
        }
    }
}

proof fn lemma_fine_name_is_part(s: Seq<char>)
    requires
        is_fine_name(s),
    ensures
        is_part(s),
{
    assert forall|i: int| 0 <= i < s.len() implies s[i] != '/' by {
        assert(is_name_char(s[i]));
    }
}

pub proof fn lemma_key_name_is_part(s: Seq<char>)
    requires
        is_key_name(s),
    ensures
        is_part(s),
{
    assert forall|i: int| 0 <= i < s.len() implies s[i] != '/' by {
        assert(key_char(s[i]));
    }
}

// ---------------------------------------------------------------------------------------------
// References
// ---------------------------------------------------------------------------------------------

/// The marks begin with a letter of their own.
proof fn lemma_mark_letter(id: Seq<char>, b: RefBindingView)
    ensures
        is_mark(mark_of(id, b)),
        mark_of(id, b).len() > 0 && mark_of(id, b)[0] == 'i',
        k_ref(id, b.group, b.item_key).len() > 0 && k_ref(id, b.group, b.item_key)[0] == 'p',
{
    reveal_strlit("p/");
    reveal_strlit("idx/ref/");
    reveal_strlit("idx/refg/");
    match b.item_key {
        Some(key) => {
            let rest = b.shared_group + "/"@ + b.shared_key + "/"@ + id + "/"@ + b.group + "/"@ + key;
            lemma_prefix_of_sum(K_IDX_REF@, rest);
            assert(mark_of(id, b) =~= K_IDX_REF@ + rest);
        },
        None => {
            let rest = b.shared_group + "/"@ + id + "/"@ + b.group;
            lemma_prefix_of_sum(K_IDX_REFG@, rest);
            assert(mark_of(id, b) =~= K_IDX_REFG@ + rest);
        },
    }
}

/// A reference that is found under a key of the project is bound there.
proof fn lemma_found(s: State, id: Seq<char>, group: Seq<char>, item_key: Option<Seq<char>>)
    requires
        indexed(s),
        is_part(id),
        read::<RefBinding>(s, k_ref(id, group, item_key)) matches Ok(Some(_)),
    ensures
        ({
            let b = read::<RefBinding>(s, k_ref(id, group, item_key))->Ok_0->0;
            bound_as(s, id, b) && k_ref(id, b.group, b.item_key) == k_ref(id, group, item_key)
        }),
{
    reveal(indexed);
    let k = k_ref(id, group, item_key);
    let b = read::<RefBinding>(s, k)->Ok_0->0;
    assert(s.contains_key(k));
    assert(is_fit(k, s[k]));
    let i = choose|i: Seq<char>| is_part(i) && k == #[trigger] k_ref(i, b.group, b.item_key);
    lemma_ref_parts(i, b.group, b.item_key);
    let rest = match item_key {
        Some(x) => group + "/"@ + x,
        None => group,
    };
    reveal_strlit("/refs/");
    reveal_strlit("refs");
    assert(K_REF@ =~= seq!['/'] + "refs"@ + seq!['/']);
    assert(k =~= k_project(id) + K_REF@ + rest);
    lemma_project_parts(id);
    lemma_split_single(id, '/');
    lemma_parts_around(k_project(id), "refs"@, rest);
    assert(parts(k)[1] == id);
    assert(parts(k)[1] == i);
}

proof fn lemma_without_ref_indexed(
    s: State,
    id: Seq<char>,
    group: Seq<char>,
    item_key: Option<Seq<char>>,
)
    requires
        indexed(s),
        is_part(id),
        without_ref(s, id, group, item_key) is Ok,
    ensures
        indexed(without_ref(s, id, group, item_key)->Ok_0),
        forall|k: Seq<char>| #[trigger]
            without_ref(s, id, group, item_key)->Ok_0.contains_key(k) ==> !(k == k_ref(
                id,
                group,
                item_key,
            ) && without_ref(s, id, group, item_key)->Ok_0[k] is Ref),
{
    let k0 = k_ref(id, group, item_key);
    let t = without_ref(s, id, group, item_key)->Ok_0;
    match read::<RefBinding>(s, k0)->Ok_0 {
        None => {},
        Some(b) => {
            lemma_found(s, id, group, item_key);
            reveal(indexed);
            let mark = mark_of(id, b);
            lemma_mark_letter(id, b);
            assert forall|k: Seq<char>| #[trigger] t.contains_key(k) implies is_fit(k, t[k]) by {
                assert(s.contains_key(k));
            }
            assert forall|k: Seq<char>| #[trigger] t.contains_key(k) && is_mark(k) implies is_backed(
                t,
                k,
            ) by {
                assert(s.contains_key(k));
                let (i, c) = choose|i: Seq<char>, c: RefBindingView| #[trigger]
                    bound_as(s, i, c) && k == mark_of(i, c);
                lemma_mark_letter(i, c);
                if k_ref(i, c.group, c.item_key) == k0 {
                    lemma_same_ref(i, c.group, c.item_key, id, b.group, b.item_key);
                }
                assert(bound_as(t, i, c));
            }
        },
    }
}

proof fn lemma_ref_bind_indexed(s: State, id: Seq<char>, b: RefBindingView)
    requires
        sound(s),
        indexed(s),
        ref_bind(s, id, b) is Ok,
    ensures
        indexed(ref_bind(s, id, b)->Ok_0.0),
        bound_as(ref_bind(s, id, b)->Ok_0.0, id, b),
{
    reveal(ref_bind);
    let structure = read::<Structure>(s, k_struct(id))->Ok_0->0;
    lemma_struct_names(s, id);
    assert(are_named(structure.groups)) by {
        reveal(indexed);
        assert(s.contains_key(k_struct(id)));
        assert(is_fit(k_struct(id), s[k_struct(id)]));
    }
    lemma_key_name_is_part(b.shared_group);
    lemma_key_name_is_part(b.shared_key);
    lemma_group_found(structure.groups, b.group);
    let g = structure.groups[group_index(structure.groups, b.group)];
    match b.item_key {
        Some(key) => {
            lemma_item_found(g.items, g.items.len(), key);
        },
        None => {},
    }
    assert(is_proper(b));
    let u = without_ref(s, id, b.group, b.item_key)->Ok_0;
    let t = ref_bind(s, id, b)->Ok_0.0;
    let k0 = k_ref(id, b.group, b.item_key);
    let mark = mark_of(id, b);
    lemma_without_ref_indexed(s, id, b.group, b.item_key);
    lemma_mark_letter(id, b);
    assert(t == u.insert(k0, EntryView::Ref(b)).insert(mark, EntryView::Text("1"@)));
    assert(bound_as(t, id, b));
    reveal(indexed);
    assert forall|k: Seq<char>| #[trigger] t.contains_key(k) implies is_fit(k, t[k]) by {
        if k != k0 && k != mark {
            assert(u.contains_key(k));
        }
    }
    assert forall|k: Seq<char>| #[trigger] t.contains_key(k) && is_mark(k) implies is_backed(t, k) by {
        if k != mark {
            lemma_not_mark(k0);
            assert(u.contains_key(k));
            let (i, c) = choose|i: Seq<char>, c: RefBindingView| #[trigger]
                bound_as(u, i, c) && k == mark_of(i, c);
            lemma_mark_letter(i, c);
            assert(bound_as(t, i, c));
        }
    }
}

proof fn lemma_not_mark(k: Seq<char>)
    requires
        k.len() == 0 || k[0] != 'i',
    ensures
        !is_mark(k),
{
    reveal_strlit("idx/ref/");
    reveal_strlit("idx/refg/");
    if K_IDX_REF@.is_prefix_of(k) {
        assert(K_IDX_REF@[0] == k[0]);
    }
    if K_IDX_REFG@.is_prefix_of(k) {
        assert(K_IDX_REFG@[0] == k[0]);
    }
}

/// A group that is found has the name.
proof fn lemma_group_found(groups: Seq<GroupDefView>, name: Seq<char>)
    requires
        group_index(groups, name) < groups.len(),
    ensures
        0 <= group_index(groups, name),
        groups[group_index(groups, name)].name == name,
    decreases groups.len(),
{
    if group_index(groups.drop_last(), name) < groups.len() - 1 {
        lemma_group_found(groups.drop_last(), name);
    }
}

/// An item that is found has the key.
proof fn lemma_item_found(items: Seq<ItemDefView>, n: nat, key: Seq<char>)
    requires
        n <= items.len(),
        def_in(items, n, key) is Some,
    ensures
        exists|j: int| 0 <= j < items.len() && (#[trigger] items[j]).key == key,
    decreases n,
{
    if items[n - 1].key == key {
        assert(items[n - 1].key == key);
    } else {
        lemma_item_found(items, (n - 1) as nat, key);
    }
}

// ---------------------------------------------------------------------------------------------
// Projects
// ---------------------------------------------------------------------------------------------

proof fn lemma_project_delete_indexed(s: State, id: Seq<char>)
    requires
        sound(s),
        indexed(s),
        project_delete(s, id) is Ok,
        stands_alone(s, id),
    ensures
        indexed(project_delete(s, id)->Ok_0.0),
{
    reveal(project_delete);
    reveal(indexed);
    lemma_project_names(s, id);
    let name = read::<Project>(s, k_project(id))->Ok_0->0.name;
    let t = project_delete(s, id)->Ok_0.0;
    assert forall|k: Seq<char>| #[trigger] t.contains_key(k) implies is_fit(k, t[k]) by {
        assert(s.contains_key(k));
    }
    assert forall|k: Seq<char>| #[trigger] t.contains_key(k) && is_mark(k) implies is_backed(t, k) by {
        assert(s.contains_key(k));
        let (i, c) = choose|i: Seq<char>, c: RefBindingView| #[trigger]
            bound_as(s, i, c) && k == mark_of(i, c);
        if i == id {
            lemma_mark_goes(id, c);
            assert(goes_with_project(s, id, name, k));
        }
        assert(!id.is_prefix_of(i));
        lemma_ref_stays(s, id, name, i, c);
        assert(bound_as(t, i, c));
    }
}

/// The mark of a reference of the project goes with it.
proof fn lemma_mark_goes(id: Seq<char>, b: RefBindingView)
    requires
        is_part(id),
        is_proper(b),
    ensures
        ref_mark(id, mark_of(id, b)),
{
    lemma_mark_parts(id, b);
    let k = mark_of(id, b);
    match b.item_key {
        Some(key) => {
            let rest = b.shared_group + "/"@ + b.shared_key + "/"@ + id + "/"@ + b.group + "/"@ + key;
            assert(k =~= K_IDX_REF@ + rest);
            lemma_prefix_of_sum(K_IDX_REF@, rest);
        },
        None => {
            let rest = b.shared_group + "/"@ + id + "/"@ + b.group;
            assert(k =~= K_IDX_REFG@ + rest);
            lemma_prefix_of_sum(K_IDX_REFG@, rest);
        },
    }
}

/// A reference stays when a project goes whose name does not begin that of its own.
proof fn lemma_ref_stays(s: State, id: Seq<char>, name: Seq<char>, i: Seq<char>, b: RefBindingView)
    requires
        is_part(id),
        is_part(i),
        !id.is_prefix_of(i),
    ensures
        !goes_with_project(s, id, name, k_ref(i, b.group, b.item_key)),
{
    let k = k_ref(i, b.group, b.item_key);
    let rest = match b.item_key {
        Some(x) => K_REF@ + b.group + "/"@ + x,
        None => K_REF@ + b.group,
    };
    reveal_strlit("/refs/");
    assert(k =~= k_project(i) + rest);
    lemma_of_project(id, i, rest);
    lemma_prefix_of_sum(K_PROJECT@, i + rest);
    assert(k =~= K_PROJECT@ + (i + rest));
    if goes_with_project(s, id, name, k) {
        lemma_goes_outside(s, id, name, k);
    }
}

proof fn lemma_projects_indexed(s: State, c: CommandView, now: i64)
    requires
        sound(s),
        indexed(s),
        step(s, c, now) is Ok,
        c is ProjectCreate || c is ProjectDelete || c is BranchCreate || c is BranchDelete,
        c matches CommandView::ProjectDelete { id, operator } ==> stands_alone(s, id),
    ensures
        indexed(step(s, c, now)->Ok_0.0),
{
    match c {
        CommandView::ProjectCreate { name, operator, ts } => {
            lemma_project_create_indexed(s, name, time_of(ts, now));
        },
        CommandView::ProjectDelete { id, operator } => {
            lemma_project_delete_indexed(s, id);
        },
        CommandView::BranchCreate { project, name, source, operator, ts } => {
            reveal(branch_create);
            law_names_are_parts(name, 64);
            lemma_project_names(s, project);
            lemma_project_keys_plain(project, name, 0);
            let t = step(s, c, now)->Ok_0.0;
            lemma_put(s, k_branch_state(project, name), t[k_branch_state(project, name)]);
        },
        CommandView::BranchDelete { project, name, operator } => {
            lemma_branch_delete_indexed(s, project, name);
        },
        _ => {},
    }
}

proof fn lemma_project_create_indexed(s: State, name: Seq<char>, ts: i64)
    requires
        indexed(s),
        project_create(s, name, ts) is Ok,
    ensures
        indexed(project_create(s, name, ts)->Ok_0.0),
{
    assert(is_project_name(name) && project_create(s, name, ts)->Ok_0.0 == with_project(s, name, ts)) by {
        reveal(project_create);
    }
    law_names_are_parts(name, MAX_PROJECT_NAME_BYTES as nat);
    reveal_strlit("dev");
    reveal_strlit("test");
    reveal_strlit("prod");
    lemma_project_keys_plain(name, "dev"@, 0);
    lemma_project_keys_plain(name, "test"@, 0);
    lemma_project_keys_plain(name, "prod"@, 0);
    let e = EntryView::Branch(new_branch(1));
    let p = EntryView::Project(ProjectView { id: name, name, created_at: ts });
    let x = EntryView::Structure(StructureView { version: 1, groups: Seq::empty() });
    let mark = EntryView::Text("1"@);
    lemma_name_index_plain(name);
    lemma_put(s, k_project(name), p);
    let a = s.insert(k_project(name), p);
    lemma_put(a, k_idx_pname(name), mark);
    let b = a.insert(k_idx_pname(name), mark);
    lemma_put(b, k_struct(name), x);
    let c = b.insert(k_struct(name), x);
    lemma_put(c, k_branch_state(name, "dev"@), e);
    let d = c.insert(k_branch_state(name, "dev"@), e);
    lemma_put(d, k_branch_state(name, "test"@), e);
    lemma_put(d.insert(k_branch_state(name, "test"@), e), k_branch_state(name, "prod"@), e);
}

proof fn lemma_name_index_plain(name: Seq<char>)
    ensures
        is_plain(k_idx_pname(name)),
{
    reveal_strlit("idx/pname/");
    reveal_strlit("idx/ref/");
    reveal_strlit("idx/refg/");
    reveal_strlit("p/");
    let k = k_idx_pname(name);
    assert(k[4] == 'p');
    if K_IDX_REF@.is_prefix_of(k) {
        assert(K_IDX_REF@[4] == k[4]);
    }
    if K_IDX_REFG@.is_prefix_of(k) {
        assert(K_IDX_REFG@[4] == k[4]);
    }
    if is_binding_key(k) {
        let (i, g, x) = choose|i: Seq<char>, g: Seq<char>, x: Option<Seq<char>>|
            is_part(i) && is_part(g) && is_part_or_none(x) && k == #[trigger] k_ref(i, g, x);
        assert(k_ref(i, g, x)[0] == 'p');
    }
}

proof fn lemma_branch_delete_indexed(s: State, id: Seq<char>, name: Seq<char>)
    requires
        sound(s),
        indexed(s),
        branch_delete(s, id, name) is Ok,
    ensures
        indexed(branch_delete(s, id, name)->Ok_0.0),
{
    reveal(branch_delete);
    assert(branch_at(s, id, name) is Some);
    lemma_branch_names(s, id, name);
    let t = branch_delete(s, id, name)->Ok_0.0;
    reveal_strlit("p/");
    reveal_strlit("/b/");
    reveal_strlit("/refs/");
    let pre = k_branch_prefix(id, name);
    assert forall|k: Seq<char>| !#[trigger] same_at(s, t, k) implies is_plain(k) && (t.contains_key(k)
        ==> !(t[k] is Ref) && is_fit(k, t[k])) by {
        assert(of_branch(id, name, k));
        assert(pre[0] == 'p' && k[0] == pre[0]);
        lemma_not_mark(k);
        if is_binding_key(k) {
            let (i, g, x) = choose|i: Seq<char>, g: Seq<char>, x: Option<Seq<char>>|
                is_part(i) && is_part(g) && is_part_or_none(x) && k == #[trigger] k_ref(i, g, x);
            let n = (K_PROJECT@.len() + id.len()) as int;
            let m = (K_PROJECT@.len() + i.len()) as int;
            assert(pre[n] == '/' && pre[n + 1] == 'b');
            assert(k[m] == '/' && k[m + 1] == 'r');
            assert(k[n] == pre[n] && k[n + 1] == pre[n + 1]);
            if id.len() < i.len() {
                assert(k[n] == i[id.len() as int]);
                assert(i.contains('/'));
            } else if i.len() < id.len() {
                assert(pre[m] == id[i.len() as int]);
                assert(k[m] == pre[m]);
                assert(id.contains('/'));
            }
        }
    }
    lemma_change(s, t);
}

// ---------------------------------------------------------------------------------------------
// Drafts
// ---------------------------------------------------------------------------------------------

proof fn lemma_preparing_indexed(s: State, c: CommandView, now: i64)
    requires
        sound(s),
        indexed(s),
        step(s, c, now) is Ok,
        c is StructureDraftSet || c is DraftUpdate || c is SharedDraftUpdate,
    ensures
        indexed(step(s, c, now)->Ok_0.0),
{
    let t = step(s, c, now)->Ok_0.0;
    match c {
        CommandView::StructureDraftSet { project, base_version, groups, operator } => {
            let draft = EntryView::StructureDraft(StructureDraftView { base_version, groups });
            assert(t == s.insert(k_struct_draft(project), draft) && (read::<Structure>(
                s,
                k_struct(project),
            ) matches Ok(Some(_)))) by {
                reveal(structure_draft_set);
            }
            lemma_struct_names(s, project);
            lemma_project_keys_plain(project, project, 0);
            lemma_put(s, k_struct_draft(project), draft);
        },
        CommandView::DraftUpdate { project, branch, updates, deletes, operator, ts } => {
            let k = k_branch_state(project, branch);
            assert(t == s.insert(k, t[k]) && t[k] is Branch && branch_at(s, project, branch) is Some) by {
                reveal(draft_update);
            }
            lemma_branch_names(s, project, branch);
            lemma_project_keys_plain(project, branch, 0);
            lemma_put(s, k, t[k]);
        },
        CommandView::SharedDraftUpdate { item, operator } => {
            let k = k_shared_draft(item.group, item.key);
            assert(t == s.insert(k, EntryView::Shared(item)) && is_key_name(item.group) && is_key_name(
                item.key,
            )) by {
                reveal(shared_draft_update);
            }
            lemma_key_name_is_part(item.group);
            lemma_key_name_is_part(item.key);
            lemma_shared_keys_plain(item.group, item.key);
            lemma_put(s, k, EntryView::Shared(item));
        },
        _ => {},
    }
}

proof fn lemma_shared_keys_plain(group: Seq<char>, key: Seq<char>)
    ensures
        is_plain(k_shared(group, key)),
        is_plain(k_shared_draft(group, key)),
{
    lemma_other_letters_plain();
    reveal_strlit("sh/");
    reveal_strlit("sh-draft/");
    assert(k_shared(group, key)[0] == 's');
    assert(k_shared_draft(group, key)[0] == 's');
}

// ---------------------------------------------------------------------------------------------
// Publishing
// ---------------------------------------------------------------------------------------------

proof fn lemma_cascade_indexed(
    a: Progress,
    id: Seq<char>,
    group: Seq<char>,
    key: Seq<char>,
    value: ValueView,
    comment: Seq<char>,
    request_id: Seq<char>,
    ts: i64,
)
    requires
        sound(a.0) && indexed(a.0),
    ensures
        cascade(a, id, group, key, value, comment, request_id, ts) matches Ok(b) ==> sound(b.0)
            && indexed(b.0),
{
    let f = |p: Progress, b: Seq<char>|
        cascade_branch(p, id, b, group, key, value, comment, request_id, ts);
    let p = |p: Progress| sound(p.0) && indexed(p.0);
    assert forall|x: Progress, b: Seq<char>| p(x) && (#[trigger] f(x, b)) is Ok implies p(
        f(x, b)->Ok_0,
    ) by {
        lemma_cascade_branch(x, id, b, group, key, value, comment, request_id, ts);
        lemma_branch_names(x.0, id, b);
        let st = branch_at(x.0, id, b)->0;
        let old = active_content(x.0, id, b, st.active_version)->Ok_0;
        let vno = (st.active_version + 1) as u64;
        lemma_extended_indexed(
            x.0,
            id,
            b,
            old,
            put_item(old, group, key, value),
            VersionRecordView {
                no: vno,
                structure_version: st.structure_version,
                created_at: ts,
                operator: "shared"@,
                comment,
                rollback_of: None,
                kind: VersionKind::Full,
                snapshot_ref: None,
                diff_ref: None,
                event_ty: Some(EventType::SharedCascade),
                gray: false,
            },
            BranchStateView { active_version: vno, ..st },
        );
    }
    lemma_fold_keeps(branches(a.0, id), a, f, p);
}

proof fn lemma_shared_step_indexed(
    a: Progress,
    item: SharedItemView,
    comment: Seq<char>,
    request_id: Seq<char>,
    ts: i64,
)
    requires
        sound(a.0) && indexed(a.0) && a.0.dom().finite(),
        is_part(item.group) && is_part(item.key),
        shared_step(a, item, comment, request_id, ts) is Ok,
    ensures
        indexed(shared_step(a, item, comment, request_id, ts)->Ok_0.0),
{
    let e = published(a.0, item);
    let t = item_put(a.0, item, e);
    lemma_shared_put(a.0, t, item, e);
    lemma_shared_keys_plain(item.group, item.key);
    lemma_put(a.0, k_shared(item.group, item.key), e);
    lemma_take(a.0.insert(k_shared(item.group, item.key), e), k_shared_draft(item.group, item.key));
    let start: Progress = (t, a.1);
    let p = |p: Progress| sound(p.0) && indexed(p.0);
    let f = |p: Progress, row: (Seq<char>, EntryView)|
        cascade_item_row(p, row, item, comment, request_id, ts);
    let g = |p: Progress, row: (Seq<char>, EntryView)|
        cascade_group_row(p, row, item, comment, request_id, ts);
    assert forall|x: Progress, row: (Seq<char>, EntryView)| p(x) && (#[trigger] f(x, row)) is Ok implies p(
        f(x, row)->Ok_0,
    ) by {
        match target(row.0, k_idx_ref(item.group, item.key), 3) {
            Some(q) => {
                lemma_cascade_indexed(x, q[0], q[1], q[2], item.value, comment, request_id, ts);
            },
            None => {},
        }
    }
    assert forall|x: Progress, row: (Seq<char>, EntryView)| p(x) && (#[trigger] g(x, row)) is Ok implies p(
        g(x, row)->Ok_0,
    ) by {
        match target(row.0, k_idx_refg(item.group), 2) {
            Some(q) => {
                lemma_cascade_indexed(x, q[0], q[1], item.key, item.value, comment, request_id, ts);
            },
            None => {},
        }
    }
    let rows = scan(t, k_idx_ref(item.group, item.key));
    lemma_fold_keeps(rows, start, f, p);
    let b = fold_steps(rows, start, f)->Ok_0;
    lemma_fold_keeps(scan(b.0, k_idx_refg(item.group)), b, g, p);
}

/// The shared items under a prefix are entries of the state.
proof fn lemma_shared_entries(s: State, prefix: Seq<char>, n: int)
    requires
        indexed(s),
        s.dom().finite(),
        0 <= n < shared_under(s, prefix).len(),
    ensures
        is_part(shared_under(s, prefix)[n].group),
        is_part(shared_under(s, prefix)[n].key),
{
    let rows = scan(s, prefix);
    let f = |i: int| row_shared(rows[i]);
    let all = gather(rows.len(), f);
    let x = shared_under(s, prefix)[n];
    lemma_sorted_member::<SharedItem>(all, n);
    let i = lemma_gather_member(rows.len(), f, x);
    let m = under(s, prefix);
    assert(m.dom().subset_of(s.dom()));
    vstd::set_lib::lemma_set_subset_finite(s.dom(), m.dom());
    lemma_listing_exists(m);
    let k = rows[i].0;
    assert(m.contains_key(k));
    assert(s.contains_key(k));
    assert(s[k] == rows[i].1);
    assert(rows[i].1 == EntryView::Shared(x));
    reveal(indexed);
    assert(is_fit(k, s[k]));
}

proof fn lemma_shared_publish_indexed(s: State, comment: Seq<char>, request_id: Seq<char>, ts: i64)
    requires
        sound(s),
        indexed(s),
        s.dom().finite(),
        shared_publish(s, comment, request_id, ts) is Ok,
    ensures
        indexed(shared_publish(s, comment, request_id, ts)->Ok_0.0),
{
    reveal(shared_publish);
    let list = shared_under(s, K_SHARED_DRAFT@);
    let f = |a: Progress, x: SharedItemView| shared_step(a, x, comment, request_id, ts);
    let p = |a: Progress| carried(s, a.0) && indexed(a.0);
    let start: Progress = (s, Seq::empty());
    assert(carried(s, s)) by {
        reveal(carried);
    }
    assert forall|x: Progress, i: int|
        0 <= i < list.len() && p(x) && (#[trigger] f(x, list[i])) is Ok implies p(f(x, list[i])->Ok_0) by {
        lemma_shared_entries(s, K_SHARED_DRAFT@, i);
        let nowhere = Place {
            id: Seq::empty(),
            branch: Seq::empty(),
            group: Seq::empty(),
            key: Seq::empty(),
        };
        assert(sound(x.0) && x.0.dom().finite()) by {
            reveal(carried);
        }
        lemma_step_keeps(s, x, nowhere, list[i].value, false, list[i], comment, request_id, ts);
        lemma_shared_step_indexed(x, list[i], comment, request_id, ts);
    }
    lemma_fold_keeps_listed(list, start, f, p);
}

proof fn lemma_structure_indexed(
    s: State,
    id: Seq<char>,
    comment: Seq<char>,
    request_id: Seq<char>,
    ts: i64,
    operator: Seq<char>,
)
    requires
        sound(s),
        indexed(s),
        publish_structure(s, id, comment, request_id, ts, operator) is Ok,
    ensures
        indexed(publish_structure(s, id, comment, request_id, ts, operator)->Ok_0.0),
{
    let (new, a) = lemma_structure_parts(s, id, comment, request_id, ts, operator);
    assert(structure_errors(new.groups).len() == 0 && (read::<Structure>(s, k_struct(id)) matches Ok(
        Some(_),
    ))) by {
        reveal(publish_structure);
    }
    lemma_struct_names(s, id);
    lemma_names_checked(new.groups);
    let f = |a: Progress, b: Seq<char>|
        structure_step(a, id, b, new, comment, request_id, ts, operator);
    let p = |a: Progress| sound(a.0) && indexed(a.0);
    let start: Progress = (s, Seq::empty());
    assert forall|x: Progress, b: Seq<char>| p(x) && (#[trigger] f(x, b)) is Ok implies p(
        f(x, b)->Ok_0,
    ) by {
        lemma_structure_step_indexed(x, id, b, new, comment, request_id, ts, operator);
    }
    lemma_fold_keeps(branches(s, id), start, f, p);
    lemma_project_keys_plain(id, id, 0);
    lemma_put(a, k_struct(id), EntryView::Structure(new));
    lemma_take(a.insert(k_struct(id), EntryView::Structure(new)), k_struct_draft(id));
}

proof fn lemma_structure_step_indexed(
    a: Progress,
    id: Seq<char>,
    branch: Seq<char>,
    new: StructureView,
    comment: Seq<char>,
    request_id: Seq<char>,
    ts: i64,
    operator: Seq<char>,
)
    requires
        sound(a.0),
        indexed(a.0),
        structure_step(a, id, branch, new, comment, request_id, ts, operator) is Ok,
    ensures
        ({
            let t = structure_step(a, id, branch, new, comment, request_id, ts, operator)->Ok_0.0;
            sound(t) && indexed(t)
        }),
{
    lemma_structure_step(a, id, branch, new, comment, request_id, ts, operator);
    let st = branch_at(a.0, id, branch)->0;
    let values = active_content(a.0, id, branch, st.active_version)->Ok_0;
    let vno = (st.active_version + 1) as u64;
    lemma_extended_indexed(
        a.0,
        id,
        branch,
        values,
        values,
        VersionRecordView {
            no: vno,
            structure_version: new.version,
            created_at: ts,
            operator: operator_of(operator),
            comment,
            rollback_of: None,
            kind: VersionKind::Full,
            snapshot_ref: None,
            diff_ref: None,
            event_ty: Some(EventType::StructurePublish),
            gray: false,
        },
        BranchStateView {
            active_version: vno,
            structure_version: new.version,
            value_draft: kept_draft(st.value_draft, new.groups),
            ..st
        },
    );
}

proof fn lemma_publishing_indexed(s: State, c: CommandView, now: i64)
    requires
        sound(s),
        indexed(s),
        s.dom().finite(),
        step(s, c, now) is Ok,
        c is Publish || c is Rollback || c is PublishStructure || c is SharedPublish,
    ensures
        indexed(step(s, c, now)->Ok_0.0),
{
    match c {
        CommandView::Publish { project, branch, comment, request_id, operator, ts } => {
            reveal(publish);
            let st = branch_at(s, project, branch)->0;
            let structure = read::<Structure>(s, k_struct(project))->Ok_0->0;
            assert(branch_at(s, project, branch) is Some);
            lemma_branch_names(s, project, branch);
            if st.last_request_id != Some(request_id) {
                let vno = (st.active_version + 1) as u64;
                lemma_extended_indexed(
                    s,
                    project,
                    branch,
                    active_content(s, project, branch, st.active_version)->Ok_0,
                    materialised(s, project, structure.groups, st.value_draft)->Ok_0,
                    VersionRecordView {
                        no: vno,
                        structure_version: structure.version,
                        created_at: time_of(ts, now),
                        operator: operator_of(operator),
                        comment,
                        rollback_of: None,
                        kind: VersionKind::Full,
                        snapshot_ref: None,
                        diff_ref: None,
                        event_ty: Some(EventType::ValuePublish),
                        gray: false,
                    },
                    BranchStateView {
                        active_version: vno,
                        last_request_id: Some(request_id),
                        value_draft: Map::empty(),
                        ..st
                    },
                );
            }
        },
        CommandView::Rollback { project, branch, to_version, comment, request_id, operator, ts } => {
            reveal(rollback);
            let st = branch_at(s, project, branch)->0;
            assert(branch_at(s, project, branch) is Some);
            lemma_branch_names(s, project, branch);
            if st.last_request_id != Some(request_id) {
                let vno = (st.active_version + 1) as u64;
                lemma_extended_indexed(
                    s,
                    project,
                    branch,
                    snapshot(s, project, branch, st.active_version)->Ok_0,
                    snapshot(s, project, branch, to_version)->Ok_0,
                    VersionRecordView {
                        no: vno,
                        structure_version: st.structure_version,
                        created_at: time_of(ts, now),
                        operator: operator_of(operator),
                        comment,
                        rollback_of: Some(to_version),
                        kind: VersionKind::Full,
                        snapshot_ref: None,
                        diff_ref: None,
                        event_ty: Some(EventType::Rollback),
                        gray: false,
                    },
                    BranchStateView {
                        active_version: vno,
                        last_request_id: Some(request_id),
                        ..st
                    },
                );
            }
        },
        CommandView::PublishStructure { project, comment, request_id, operator, ts } => {
            lemma_structure_indexed(s, project, comment, request_id, time_of(ts, now), operator);
        },
        CommandView::SharedPublish { comment, request_id, operator, ts } => {
            lemma_shared_publish_indexed(s, comment, request_id, time_of(ts, now));
        },
        _ => {},
    }
}

// ---------------------------------------------------------------------------------------------
// Sessions, accounts and the audit trail
// ---------------------------------------------------------------------------------------------

/// An entry of a person, or of the trail.
pub open spec fn is_personal(e: EntryView) -> bool {
    e is Session || e is Account || e is Text || e is Audit || e is Counter
}

/// Whether the states differ only where sessions, accounts, the password and the trail stand.
pub open spec fn same_but_people(s: State, t: State) -> bool {
    forall|k: Seq<char>|
        !#[trigger] same_at(s, t, k) ==> k.len() > 0 && (k[0] == 's' || k[0] == 'a') && (t.contains_key(
            k,
        ) ==> is_personal(t[k]))
}

proof fn lemma_people_letters(a: Seq<char>, b: Seq<char>, no: u64)
    ensures
        K_SESSION@.len() > 0 && K_SESSION@[0] == 's',
        K_ADMIN_PW@.len() > 0 && K_ADMIN_PW@[0] == 's',
        k_admin_session(a).len() > 0 && k_admin_session(a)[0] == 's',
        k_pa_session(a).len() > 0 && k_pa_session(a)[0] == 's',
        k_pa_session_with(a, b).len() > 0 && k_pa_session_with(a, b)[0] == 's',
        k_project_admin(a).len() > 0 && k_project_admin(a)[0] == 'a',
        K_AUDIT_SEQ@.len() > 0 && K_AUDIT_SEQ@[0] == 'a',
        k_audit(no).len() > 0 && k_audit(no)[0] == 'a',
        forall|k: Seq<char>| #[trigger] session_of(a, k) ==> k.len() > 0 && k[0] == 's',
        forall|k: Seq<char>| #[trigger] K_SESSIONS@.is_prefix_of(k) ==> k.len() > 0 && k[0] == 's',
{
    reveal_strlit("sess/admin");
    reveal_strlit("sess/admin/");
    reveal_strlit("sess/admin-pw");
    reveal_strlit("sess/pa/");
    reveal_strlit("adm/pa/");
    reveal_strlit("audit/");
    reveal_strlit("audit/seq");
    assert forall|k: Seq<char>| #[trigger] session_of(a, k) implies k.len() > 0 && k[0] == 's' by {
        if k_pa_sessions_prefix(a).is_prefix_of(k) {
            assert(k_pa_sessions_prefix(a)[0] == k[0]);
        }
    }
    assert forall|k: Seq<char>| #[trigger] K_SESSIONS@.is_prefix_of(k) implies k.len() > 0 && k[0] == 's' by {
        assert(K_SESSIONS@[0] == k[0]);
    }
}

/// The commands on sessions, accounts and the trail change nothing else.
proof fn lemma_people_apart(s: State, c: CommandView, now: i64)
    requires
        step(s, c, now) is Ok,
        c is SessionLogin || c is SessionLogout || c is SessionHeartbeat || c is MultiSessionLogin
            || c is MultiSessionLogout || c is MultiSessionLogoutAll || c is MultiSessionHeartbeat
            || c is ProjectAdminCreate || c is ProjectAdminDelete || c is ProjectAdminSetPassword
            || c is PaSessionLogin || c is PaSessionLogout || c is PaSessionHeartbeat
            || c is MultiPaSessionLogin || c is AdminSetPassword || c is RotateMasterKey
            || c is AuditAppend,
    ensures
        same_but_people(s, step(s, c, now)->Ok_0.0),
{
    reveal(session_login);
    reveal(prolong);
    reveal(account_create);
    reveal(account_delete);
    reveal(account_set_password);
    reveal(account_login);
    reveal(account_single_login);
    reveal(audit_append);
    lemma_people_letters(Seq::empty(), Seq::empty(), 0);
    match c {
        CommandView::MultiSessionLogin { token_hash, issued_at, expires_at, session_id } => {
            lemma_people_letters(session_id, session_id, 0);
        },
        CommandView::MultiSessionLogout { session_id } => {
            lemma_people_letters(session_id, session_id, 0);
        },
        CommandView::MultiSessionHeartbeat { session_id, expires_at } => {
            lemma_people_letters(session_id, session_id, 0);
        },
        CommandView::ProjectAdminCreate { project, username, salt, password_hash, ts } => {
            lemma_people_letters(username, username, 0);
        },
        CommandView::ProjectAdminDelete { username } => {
            lemma_people_letters(username, username, 0);
        },
        CommandView::ProjectAdminSetPassword { username, salt, password_hash } => {
            lemma_people_letters(username, username, 0);
        },
        CommandView::PaSessionLogin { username, token_hash, issued_at, expires_at, device_id } => {
            lemma_people_letters(username, username, 0);
        },
        CommandView::PaSessionLogout { username } => {
            lemma_people_letters(username, username, 0);
        },
        CommandView::PaSessionHeartbeat { username, expires_at } => {
            lemma_people_letters(username, username, 0);
        },
        CommandView::MultiPaSessionLogin {
            username,
            token_hash,
            issued_at,
            expires_at,
            device_id,
            session_id,
        } => {
            lemma_people_letters(username, session_id, 0);
        },
        CommandView::AuditAppend { entry } => {
            lemma_people_letters(Seq::empty(), Seq::empty(), (last_number(s) + 1) as u64);
        },
        _ => {},
    }
}

// ---------------------------------------------------------------------------------------------
// The index as a whole
// ---------------------------------------------------------------------------------------------

/// Nothing is indexed.
pub proof fn law_nothing_is_indexed()
    ensures
        indexed(State::empty()),
{
    reveal(indexed);
}

/// No other project with references has a name that begins with this one.
pub open spec fn stands_alone(s: State, id: Seq<char>) -> bool {
    forall|other: Seq<char>, b: RefBindingView| #[trigger]
        bound_as(s, other, b) && id.is_prefix_of(other) ==> other == id
}

/// Every command keeps the index: a mark stands for a reference that is there. Left out is the deletion of a
/// project whose name begins that of another with references: it takes those too, and leaves their marks.
pub proof fn law_commands_keep_the_index(s: State, c: CommandView, now: i64)
    requires
        sound(s),
        s.dom().finite(),
        indexed(s),
        step(s, c, now) is Ok,
        c matches CommandView::RefUnbind { project, group, item_key, operator } ==> is_part(project),
        c matches CommandView::ProjectDelete { id, operator } ==> stands_alone(s, id),
    ensures
        indexed(step(s, c, now)->Ok_0.0),
{
    let t = step(s, c, now)->Ok_0.0;
    if c is ProjectCreate || c is ProjectDelete || c is BranchCreate || c is BranchDelete {
        lemma_projects_indexed(s, c, now);
    } else if c is StructureDraftSet || c is DraftUpdate || c is SharedDraftUpdate {
        lemma_preparing_indexed(s, c, now);
    } else if c is Publish || c is Rollback || c is PublishStructure || c is SharedPublish {
        lemma_publishing_indexed(s, c, now);
    } else if c is RefBind {
        lemma_ref_bind_indexed(s, c->RefBind_project, c->RefBind_binding);
    } else if c is RefUnbind {
        reveal(ref_unbind);
        lemma_without_ref_indexed(
            s,
            c->RefUnbind_project,
            c->RefUnbind_group,
            c->RefUnbind_item_key,
        );
    } else {
        lemma_people_apart(s, c, now);
        lemma_other_letters_plain();
        lemma_change(s, t);
    }
}

/// Binding an item or a group anew takes the mark of the reference that was there away, unless it leads to
/// the same place in the shared library.
pub proof fn law_rebinding_clears_the_old_mark(
    s: State,
    id: Seq<char>,
    old: RefBindingView,
    new: RefBindingView,
    operator: Seq<char>,
    now: i64,
)
    requires
        sound(s),
        indexed(s),
        bound_as(s, id, old),
        old.group == new.group && old.item_key == new.item_key,
        step(s, CommandView::RefBind { project: id, binding: new, operator }, now) is Ok,
        mark_of(id, old) != mark_of(id, new),
    ensures
        ({
            let t = step(s, CommandView::RefBind { project: id, binding: new, operator }, now)->Ok_0.0;
            &&& bound_as(t, id, new)
            &&& !t.contains_key(mark_of(id, old))
        }),
{
    lemma_ref_bind_indexed(s, id, new);
    reveal(ref_bind);
    lemma_mark_letter(id, old);
}

/// The project has no reference to any of the shared items, nor to their groups.
pub open spec fn refers_to_none(s: State, id: Seq<char>, items: Seq<SharedItemView>) -> bool {
    forall|b: RefBindingView, j: int|
        #![trigger bound_as(s, id, b), items[j]]
        bound_as(s, id, b) && 0 <= j < items.len() ==> !refers_by(b, items[j])
}

/// Whether the reference leads to the shared item, alone or by its group.
pub open spec fn refers_by(b: RefBindingView, item: SharedItemView) -> bool {
    b.shared_group == item.group && (b.item_key is None || b.shared_key == item.key)
}

/// Nothing of the project differs.
#[verifier::opaque]
pub open spec fn is_spared(s: State, t: State, id: Seq<char>) -> bool {
    forall|k: Seq<char>| belongs_to(id, k) ==> #[trigger] same_at(s, t, k)
}

/// A mark that the publication of an item follows stands for a reference to that item.
proof fn lemma_followed_mark(i: Seq<char>, c: RefBindingView, x: SharedItemView, n: int)
    requires
        is_part(i) && is_proper(c),
        is_part(x.group) && is_part(x.key),
        n == 3 || n == 2,
        (if n == 3 {
            k_idx_ref(x.group, x.key)
        } else {
            k_idx_refg(x.group)
        }).is_prefix_of(mark_of(i, c)),
        target(
            mark_of(i, c),
            if n == 3 {
                k_idx_ref(x.group, x.key)
            } else {
                k_idx_refg(x.group)
            },
            n,
        ) is Some,
    ensures
        refers_by(c, x),
        target(
            mark_of(i, c),
            if n == 3 {
                k_idx_ref(x.group, x.key)
            } else {
                k_idx_refg(x.group)
            },
            n,
        )->0[0] == i,
{
    reveal_strlit("/");
    assert("/"@ =~= seq!['/']);
    reveal_strlit("idx/ref/");
    reveal_strlit("idx/refg/");
    let k = mark_of(i, c);
    let head = if n == 3 {
        K_IDX_REF@
    } else {
        K_IDX_REFG@
    };
    let h = if n == 3 {
        x.group + "/"@ + x.key
    } else {
        x.group
    };
    let pre = head + h;
    assert(pre =~= if n == 3 {
        k_idx_ref(x.group, x.key)
    } else {
        k_idx_refg(x.group)
    });
    assert(head[7] == k[7]) by {
        assert(pre[7] == head[7]);
    }
    assert(c.item_key is Some <==> n == 3) by {
        if c.item_key is Some {
            assert(k[7] == '/');
        } else {
            assert(k[7] == 'g');
        }
    }
    let rest = k.skip(head.len() as int);
    let tail = k.skip((pre.len() + 1) as int);
    let between = k[pre.len() as int];
    lemma_split_single(x.group, '/');
    lemma_split_single(x.key, '/');
    lemma_joined_parts(x.group, "/"@, x.key);
    assert(parts(h).len() == n - 1);
    lemma_mark_parts(i, c);
    assert(rest =~= h.push(between) + tail) by {
        assert(k.subrange(0, pre.len() as int) =~= pre);
        assert forall|j: int| 0 <= j < h.len() implies rest[j] == h[j] by {
            assert(k[head.len() + j] == pre[head.len() + j]);
        }
    }
    if between == '/' {
        lemma_split_join(h, tail, '/');
        assert(parts(rest) == parts(h) + parts(tail));
        assert(parts(rest)[n - 1] == parts(tail)[0]);
        assert(parts(rest)[0] == parts(h)[0]);
    } else {
        lemma_split_len(h.push(between), tail, '/');
        assert(h.push(between).drop_last() =~= h);
        lemma_split_nonempty(h, '/');
        assert(parts(h.push(between)).len() == parts(h).len());
        assert(false);
    }
}

/// The parts of a mark, behind what the marks of its kind begin with.
proof fn lemma_mark_parts(id: Seq<char>, b: RefBindingView)
    requires
        is_part(id),
        is_proper(b),
    ensures
        match b.item_key {
            Some(key) => parts(mark_of(id, b).skip(K_IDX_REF@.len() as int)) == seq![
                b.shared_group,
                b.shared_key,
                id,
                b.group,
                key,
            ],
            None => parts(mark_of(id, b).skip(K_IDX_REFG@.len() as int)) == seq![
                b.shared_group,
                id,
                b.group,
            ],
        },
{
    reveal_strlit("/");
    assert("/"@ =~= seq!['/']);
    let k = mark_of(id, b);
    lemma_split_single(id, '/');
    lemma_split_single(b.group, '/');
    lemma_split_single(b.shared_group, '/');
    lemma_split_single(b.shared_key, '/');
    match b.item_key {
        Some(key) => {
            lemma_split_single(key, '/');
            let two = b.shared_group + "/"@ + b.shared_key;
            let three = two + "/"@ + id;
            let four = three + "/"@ + b.group;
            let rest = four + "/"@ + key;
            lemma_joined_parts(b.shared_group, "/"@, b.shared_key);
            lemma_joined_parts(two, "/"@, id);
            lemma_joined_parts(three, "/"@, b.group);
            lemma_joined_parts(four, "/"@, key);
            assert(parts(rest) =~= seq![b.shared_group, b.shared_key, id, b.group, key]);
            assert(k =~= K_IDX_REF@ + rest);
            assert(k.skip(K_IDX_REF@.len() as int) =~= rest);
        },
        None => {
            let two = b.shared_group + "/"@ + id;
            let rest = two + "/"@ + b.group;
            lemma_joined_parts(b.shared_group, "/"@, id);
            lemma_joined_parts(two, "/"@, b.group);
            assert(parts(rest) =~= seq![b.shared_group, id, b.group]);
            assert(k =~= K_IDX_REFG@ + rest);
            assert(k.skip(K_IDX_REFG@.len() as int) =~= rest);
        },
    }
}

/// Following a reference to another project spares the project.
proof fn lemma_cascade_spares(
    s: State,
    a: Progress,
    id: Seq<char>,
    to: Seq<char>,
    group: Seq<char>,
    key: Seq<char>,
    value: ValueView,
    comment: Seq<char>,
    request_id: Seq<char>,
    ts: i64,
)
    requires
        carried(s, a.0),
        is_spared(s, a.0, id),
        is_part(id),
        to != id,
    ensures
        cascade(a, to, group, key, value, comment, request_id, ts) matches Ok(b) ==> carried(s, b.0)
            && is_spared(s, b.0, id),
{
    let f = |p: Progress, b: Seq<char>|
        cascade_branch(p, to, b, group, key, value, comment, request_id, ts);
    let p = |p: Progress| carried(s, p.0) && is_spared(s, p.0, id);
    assert forall|x: Progress, b: Seq<char>| p(x) && (#[trigger] f(x, b)) is Ok implies p(
        f(x, b)->Ok_0,
    ) by {
        let nowhere = Place { id, branch: b, group, key };
        lemma_one_follows(s, x, to, b, group, key, value, comment, request_id, ts, nowhere, value);
        assert(sound(x.0)) by {
            reveal(carried);
        }
        lemma_cascade_branch(x, to, b, group, key, value, comment, request_id, ts);
        lemma_branch_names(x.0, to, b);
        let t = f(x, b)->Ok_0.0;
        let no = (branch_at(x.0, to, b)->0.active_version + 1) as u64;
        let tail = K_BRANCH@ + b + K_VERSION@ + dec(no as nat);
        lemma_project_keys(to, b, no);
        lemma_belongs_to(id, to, K_BRANCH@ + b + K_STATE@);
        lemma_belongs_to(id, to, tail);
        lemma_belongs_to(id, to, tail + K_SNAP@);
        lemma_belongs_to(id, to, tail + K_DIFF@);
        reveal(is_spared);
        assert forall|k: Seq<char>| belongs_to(id, k) implies #[trigger] same_at(s, t, k) by {
            assert(same_at(s, x.0, k));
        }
    }
    lemma_fold_keeps(branches(a.0, to), a, f, p);
}

/// Publishing a shared item that a project does not refer to spares the project.
proof fn lemma_step_spares(
    s: State,
    a: Progress,
    id: Seq<char>,
    item: SharedItemView,
    comment: Seq<char>,
    request_id: Seq<char>,
    ts: i64,
)
    requires
        indexed(s),
        carried(s, a.0),
        is_spared(s, a.0, id),
        is_part(id),
        is_part(item.group) && is_part(item.key),
        refers_to_none(s, id, seq![item]),
        shared_step(a, item, comment, request_id, ts) is Ok,
    ensures
        carried(s, shared_step(a, item, comment, request_id, ts)->Ok_0.0),
        is_spared(s, shared_step(a, item, comment, request_id, ts)->Ok_0.0, id),
{
    let e = published(a.0, item);
    let t = item_put(a.0, item, e);
    let nowhere = Place { id, branch: id, group: id, key: id };
    lemma_put_keeps(s, a.0, nowhere, item.value, false, item, e);
    assert(is_spared(s, t, id)) by {
        reveal(is_spared);
        reveal_strlit("sh/");
        reveal_strlit("sh-draft/");
        reveal_strlit("p/");
        assert(k_shared(item.group, item.key)[0] == 's');
        assert(k_shared_draft(item.group, item.key)[0] == 's');
        assert forall|k: Seq<char>| belongs_to(id, k) implies #[trigger] same_at(s, t, k) by {
            assert(same_at(s, a.0, k));
            if k != k_project(id) {
                assert((k_project(id) + "/"@)[0] == k[0]);
            }
            assert(k[0] == 'p');
        }
    }
    let start: Progress = (t, a.1);
    let f = |p: Progress, row: (Seq<char>, EntryView)|
        cascade_item_row(p, row, item, comment, request_id, ts);
    let g = |p: Progress, row: (Seq<char>, EntryView)|
        cascade_group_row(p, row, item, comment, request_id, ts);
    let p = |p: Progress| carried(s, p.0) && is_spared(s, p.0, id);
    lemma_index_letters(item);
    let rows = scan(t, k_idx_ref(item.group, item.key));
    lemma_index_rows(s, t, k_idx_ref(item.group, item.key));
    assert forall|x: Progress, n: int|
        0 <= n < rows.len() && p(x) && (#[trigger] f(x, rows[n])) is Ok implies p(f(x, rows[n])->Ok_0) by {
        match target(rows[n].0, k_idx_ref(item.group, item.key), 3) {
            Some(q) => {
                lemma_not_followed(s, id, item, rows[n].0, 3);
                lemma_cascade_spares(
                    s,
                    x,
                    id,
                    q[0],
                    q[1],
                    q[2],
                    item.value,
                    comment,
                    request_id,
                    ts,
                );
            },
            None => {},
        }
    }
    lemma_fold_keeps_listed(rows, start, f, p);
    let b = fold_steps(rows, start, f)->Ok_0;
    let more = scan(b.0, k_idx_refg(item.group));
    lemma_index_rows(s, b.0, k_idx_refg(item.group));
    assert forall|x: Progress, n: int|
        0 <= n < more.len() && p(x) && (#[trigger] g(x, more[n])) is Ok implies p(g(x, more[n])->Ok_0) by {
        match target(more[n].0, k_idx_refg(item.group), 2) {
            Some(q) => {
                lemma_not_followed(s, id, item, more[n].0, 2);
                lemma_cascade_spares(
                    s,
                    x,
                    id,
                    q[0],
                    q[1],
                    item.key,
                    item.value,
                    comment,
                    request_id,
                    ts,
                );
            },
            None => {},
        }
    }
    lemma_fold_keeps_listed(more, b, g, p);
}

/// No mark leads an item to a project that does not refer to it.
proof fn lemma_not_followed(s: State, id: Seq<char>, item: SharedItemView, k: Seq<char>, n: int)
    requires
        indexed(s),
        refers_to_none(s, id, seq![item]),
        is_part(item.group) && is_part(item.key),
        s.contains_key(k),
        n == 3 || n == 2,
        (if n == 3 {
            k_idx_ref(item.group, item.key)
        } else {
            k_idx_refg(item.group)
        }).is_prefix_of(k),
        target(
            k,
            if n == 3 {
                k_idx_ref(item.group, item.key)
            } else {
                k_idx_refg(item.group)
            },
            n,
        ) is Some,
    ensures
        target(
            k,
            if n == 3 {
                k_idx_ref(item.group, item.key)
            } else {
                k_idx_refg(item.group)
            },
            n,
        )->0[0] != id,
{
    reveal(indexed);
    assert(is_mark(k)) by {
        let pre = if n == 3 {
            k_idx_ref(item.group, item.key)
        } else {
            k_idx_refg(item.group)
        };
        let head = if n == 3 {
            K_IDX_REF@
        } else {
            K_IDX_REFG@
        };
        assert(k.subrange(0, head.len() as int) =~= head) by {
            assert forall|j: int| 0 <= j < head.len() implies k[j] == head[j] by {
                assert(pre[j] == head[j]);
                assert(pre[j] == k[j]);
            }
        }
    }
    let (i, c) = choose|i: Seq<char>, c: RefBindingView| #[trigger]
        bound_as(s, i, c) && k == mark_of(i, c);
    lemma_followed_mark(i, c, item, n);
    if i == id {
        assert(bound_as(s, id, c));
        assert(seq![item][0] == item);
    }
}

/// Publishing the shared library leaves a project as it was that refers to none of the drafted items.
pub proof fn law_shared_publish_spares_others(
    s: State,
    comment: Seq<char>,
    request_id: Seq<char>,
    ts: i64,
    id: Seq<char>,
    k: Seq<char>,
)
    requires
        sound(s),
        s.dom().finite(),
        indexed(s),
        shared_publish(s, comment, request_id, ts) is Ok,
        is_part(id),
        refers_to_none(s, id, shared_under(s, K_SHARED_DRAFT@)),
        belongs_to(id, k),
    ensures
        same_at(s, shared_publish(s, comment, request_id, ts)->Ok_0.0, k),
{
    reveal(shared_publish);
    let list = shared_under(s, K_SHARED_DRAFT@);
    let f = |a: Progress, x: SharedItemView| shared_step(a, x, comment, request_id, ts);
    let p = |a: Progress| carried(s, a.0) && is_spared(s, a.0, id);
    let start: Progress = (s, Seq::empty());
    assert(p(start)) by {
        reveal(carried);
        reveal(is_spared);
    }
    assert forall|x: Progress, n: int|
        0 <= n < list.len() && p(x) && (#[trigger] f(x, list[n])) is Ok implies p(f(x, list[n])->Ok_0) by {
        lemma_shared_entries(s, K_SHARED_DRAFT@, n);
        let item = list[n];
        assert(refers_to_none(s, id, seq![item])) by {
            assert forall|b: RefBindingView, j: int|
                #![trigger bound_as(s, id, b), seq![item][j]]
                bound_as(s, id, b) && 0 <= j < seq![item].len() implies !refers_by(b, seq![item][j]) by {
                assert(list[n] == item);
            }
        }
        lemma_step_spares(s, x, id, item, comment, request_id, ts);
    }
    lemma_fold_keeps_listed(list, start, f, p);
    reveal(is_spared);
}

} // verus!
