//! Which commands on projects, branches, structures and shared items go through, and what each does.
use vstd::prelude::*;
use vstd::utf8::encode_utf8;

use crate::command::CommandView;
use crate::error::ErrorKind;
use crate::json::shared_text;
use crate::keys::{
    K_BRANCH, K_PA_ACCOUNT, K_STATE, K_STRUCT, k_branch_prefix, k_branch_state, k_idx_pname,
    k_pa_session, k_pa_session_with, k_pa_sessions_prefix, k_project, k_project_admin, k_ref,
    k_shared_draft, k_shared_prefix, k_struct, k_struct_draft,
};
use crate::laws::changes::has_value;
use crate::laws::checks::{
    defines, is_name_char, is_well_formed, law_well_formed_structures_pass, lemma_def_in,
};
use crate::laws::drafts::is_set;
use crate::laws::events::{active_at, content};
use crate::laws::paths::{
    belongs_to, is_part, law_names_are_parts, lemma_belongs_to, lemma_branch_keys,
    lemma_prefix_of_sum, lemma_project_parts, lemma_state_names, lemma_struct_parts, parts,
};
use crate::laws::people::account_at;
use crate::laws::projects::law_structure_publish_advances_every_branch;
use crate::laws::publishing::{is_listed, lemma_group_index, shared_at};
use crate::laws::reading::law_accounts_are_listed;
use crate::laws::sound::{branch_at, same_at, sound};
use crate::laws::soundness::lemma_project_keys;
use crate::model::{
    BranchStateView, EntryView, GroupDefView, ItemDefView, ProjectView, RefBindingView,
    SharedItemView, StructureDraft, StructureDraftView, StructureView, ValueType,
};
use crate::step::{accounts, branches, is_branch_name, is_project_name, projects, read, slug_char};
use crate::store::State;
use crate::text::lemma_split_single;
use crate::transition::{
    account_owns, branch_create, branch_delete, def_in, group_index, has_item, kept_draft,
    kept_keys, mark_of, match_at, project_create, project_delete, publish_structure, ref_bind,
    ref_unbind, rollback, shared_draft_update, step, structure_draft_set, time_of, with_project,
};
use crate::validator::{DraftView, is_key_name, key_char};

verus! {

/// The project with the id.
pub open spec fn project_at(s: State, id: Seq<char>) -> Option<ProjectView> {
    if s.contains_key(k_project(id)) {
        match s[k_project(id)] {
            EntryView::Project(p) => Some(p),
            _ => None,
        }
    } else {
        None
    }
}

/// The structure of the project.
pub open spec fn structure_at(s: State, id: Seq<char>) -> Option<StructureView> {
    if s.contains_key(k_struct(id)) {
        match s[k_struct(id)] {
            EntryView::Structure(x) => Some(x),
            _ => None,
        }
    } else {
        None
    }
}

/// A name of 1 to `max` small letters, digits and hyphens that does not begin with a hyphen.
pub open spec fn is_small_name(s: Seq<char>, max: int) -> bool {
    &&& 1 <= s.len() <= max
    &&& s[0] != '-'
    &&& forall|i: int|
        0 <= i < s.len() ==> {
            ||| 97 <= #[trigger] s[i] as int <= 122
            ||| 48 <= s[i] as int <= 57
            ||| s[i] as int == 45
        }
}

/// The names of projects have at most 128 characters, those of branches at most 64.
pub proof fn law_names_are_small(s: Seq<char>)
    ensures
        is_project_name(s) <==> is_small_name(s, 128),
        is_branch_name(s) <==> is_small_name(s, 64),
{
    assert forall|i: int| 0 <= i < s.len() implies slug_char(#[trigger] s[i]) == {
        ||| 97 <= s[i] as int <= 122
        ||| 48 <= s[i] as int <= 57
        ||| s[i] as int == 45
    } by {}
    if is_small_name(s, 128) {
        assert forall|i: int| 0 <= i < s.len() implies slug_char(#[trigger] s[i]) by {
            assert(97 <= s[i] as int <= 122 || 48 <= s[i] as int <= 57 || s[i] as int == 45);
        }
    }
    if is_project_name(s) {
        assert forall|i: int| 0 <= i < s.len() implies {
            ||| 97 <= #[trigger] s[i] as int <= 122
            ||| 48 <= s[i] as int <= 57
            ||| s[i] as int == 45
        } by {
            assert(slug_char(s[i]));
        }
    }
}

/// Whether a branch is as a new one is: no version, and no request answered.
pub open spec fn is_new_branch(st: BranchStateView, structure_version: u64) -> bool {
    &&& st.active_version == 0
    &&& st.structure_version == structure_version
    &&& st.last_request_id is None
    &&& st.draft_rev == 0
    &&& st.gray_seq == 0
    &&& st.gray_rule is None
}

/// A project can be created where it has a proper name, is not there yet, and there are less than 10000. It
/// begins with an empty structure and three branches, and nothing else changes.
pub proof fn law_projects_are_created(
    s: State,
    name: Seq<char>,
    operator: Seq<char>,
    ts: i64,
    now: i64,
)
    ensures
        ({
            let r = step(s, CommandView::ProjectCreate { name, operator, ts }, now);
            &&& r is Ok <==> is_small_name(name, 128) && projects(s).len() < 10000 && !s.contains_key(
                k_project(name),
            )
            &&& r matches Ok((t, events)) ==> {
                &&& events.len() == 0
                &&& project_at(t, name) == Some(
                    ProjectView {
                        id: name,
                        name,
                        created_at: if ts > 0 {
                            ts
                        } else {
                            now
                        },
                    },
                )
                &&& structure_at(t, name) matches Some(x) && x.version == 1 && x.groups.len() == 0
                &&& forall|b: Seq<char>|
                    b == "dev"@ || b == "test"@ || b == "prod"@ ==> (#[trigger] branch_at(t, name, b) matches Some(
                        st,
                    ) && is_new_branch(st, 1) && st.value_draft == DraftView::empty())
                &&& forall|k: Seq<char>|
                    !belongs_to(name, k) && k != k_idx_pname(name) ==> #[trigger] same_at(s, t, k)
            }
        }),
{
    law_names_are_small(name);
    let at = time_of(ts, now);
    assert(step(s, CommandView::ProjectCreate { name, operator, ts }, now) == project_create(s, name, at));
    reveal(project_create);
    if is_small_name(name, 128) && projects(s).len() < 10000 && !s.contains_key(k_project(name)) {
        let t = with_project(s, name, at);
        law_names_are_parts(name, 128);
        reveal_strlit("dev");
        reveal_strlit("test");
        reveal_strlit("prod");
        lemma_split_single(name, '/');
        lemma_project_parts(name);
        lemma_struct_parts(name);
        lemma_branch_keys(name, "dev"@, 0);
        lemma_branch_keys(name, "test"@, 0);
        lemma_branch_keys(name, "prod"@, 0);
        lemma_states_apart(name, "dev"@, "test"@);
        lemma_states_apart(name, "dev"@, "prod"@);
        assert("test"@[0] == 't' && "prod"@[0] == 'p');
        lemma_states_apart(name, "test"@, "prod"@);
        lemma_name_index_outside(name);
        assert(parts(k_project(name)).len() == 2);
        assert(parts(k_struct(name)).len() == 3);
        lemma_belongs_to(name, name, Seq::empty());
        reveal_strlit("/struct");
        reveal_strlit("/b/");
        assert(k_project(name) =~= k_project(name) + Seq::<char>::empty());
        assert(k_struct(name) =~= k_project(name) + K_STRUCT@);
        lemma_belongs_to(name, name, K_STRUCT@);
        lemma_project_keys(name, "dev"@, 0);
        lemma_project_keys(name, "test"@, 0);
        lemma_project_keys(name, "prod"@, 0);
        lemma_belongs_to(name, name, K_BRANCH@ + "dev"@ + K_STATE@);
        lemma_belongs_to(name, name, K_BRANCH@ + "test"@ + K_STATE@);
        lemma_belongs_to(name, name, K_BRANCH@ + "prod"@ + K_STATE@);
        assert forall|k: Seq<char>| !belongs_to(name, k) && k != k_idx_pname(name) implies #[trigger] same_at(
            s,
            t,
            k,
        ) by {}
    }
}

proof fn lemma_states_apart(id: Seq<char>, a: Seq<char>, b: Seq<char>)
    requires
        is_part(id) && is_part(a) && is_part(b),
        a != b,
    ensures
        k_branch_state(id, a) != k_branch_state(id, b),
{
    if k_branch_state(id, a) == k_branch_state(id, b) {
        lemma_state_names(id, a, id, b);
    }
}

proof fn lemma_name_index_outside(name: Seq<char>)
    ensures
        k_idx_pname(name).len() > 0 && k_idx_pname(name)[0] == 'i',
        forall|id: Seq<char>| (#[trigger] k_project(id)).len() > 0 && k_project(id)[0] == 'p',
        forall|id: Seq<char>| (#[trigger] k_struct(id)).len() > 0 && k_struct(id)[0] == 'p',
        forall|id: Seq<char>, b: Seq<char>|
            (#[trigger] k_branch_state(id, b)).len() > 0 && k_branch_state(id, b)[0] == 'p',
{
    reveal_strlit("idx/pname/");
    reveal_strlit("p/");
}

/// Whether a branch can be begun from another: that one is there and has a version that can be read.
pub open spec fn is_source(s: State, id: Seq<char>, source: Seq<char>) -> bool {
    branch_at(s, id, source) matches Some(st) && st.active_version > 0 && content(
        s,
        id,
        source,
        st.active_version,
    ) is Some
}

/// A branch can be created in a project that is there, under a proper name that is free, up to 100 of them.
/// It begins without a version, with an empty draft, or with the values of its source as its draft. Nothing
/// else changes.
pub proof fn law_branches_are_created(
    s: State,
    id: Seq<char>,
    name: Seq<char>,
    source: Option<Seq<char>>,
    operator: Seq<char>,
    ts: i64,
    now: i64,
    g: Seq<char>,
    k: Seq<char>,
)
    ensures
        ({
            let r = step(s, CommandView::BranchCreate { project: id, name, source, operator, ts }, now);
            &&& r is Ok <==> {
                &&& is_small_name(name, 64)
                &&& project_at(s, id) is Some
                &&& !s.contains_key(k_branch_state(id, name))
                &&& branches(s, id).len() < 100
                &&& s.contains_key(k_struct(id)) ==> structure_at(s, id) is Some
                &&& source matches Some(src) ==> is_source(s, id, src)
            }
            &&& r matches Ok((t, events)) ==> {
                &&& events.len() == 0
                &&& branch_at(t, id, name) matches Some(st) && is_new_branch(
                    st,
                    match structure_at(s, id) {
                        Some(x) => x.version,
                        None => 1,
                    },
                ) && match source {
                    None => st.value_draft == DraftView::empty(),
                    Some(src) => {
                        let m = content(s, id, src, active_at(s, id, src))->0;
                        &&& is_set(st.value_draft, g, k) <==> has_value(m, g, k)
                        &&& has_value(m, g, k) ==> st.value_draft[g][k].value == m[g][k]
                            && st.value_draft[g][k].updated_at == (if ts > 0 {
                            ts
                        } else {
                            now
                        })
                    },
                }
                &&& forall|x: Seq<char>| x != k_branch_state(id, name) ==> #[trigger] same_at(s, t, x)
            }
        }),
{
    law_names_are_small(name);
    reveal(branch_create);
}

/// The draft of a structure can be set where it is based on the structure that is there and is well formed.
/// It is then there as it was given, and nothing else changes.
pub proof fn law_structure_drafts_are_set(
    s: State,
    id: Seq<char>,
    base_version: u64,
    groups: Seq<GroupDefView>,
    operator: Seq<char>,
    now: i64,
)
    ensures
        ({
            let r = step(
                s,
                CommandView::StructureDraftSet { project: id, base_version, groups, operator },
                now,
            );
            &&& r is Ok <==> (structure_at(s, id) matches Some(x) && x.version == base_version
                && is_well_formed(groups))
            &&& r matches Ok((t, events)) ==> {
                &&& events.len() == 0
                &&& t.contains_key(k_struct_draft(id))
                &&& t[k_struct_draft(id)] == EntryView::StructureDraft(
                    StructureDraftView { base_version, groups },
                )
                &&& forall|k: Seq<char>| k != k_struct_draft(id) ==> #[trigger] same_at(s, t, k)
            }
            &&& (structure_at(s, id) matches Some(x) && x.version != base_version) ==> r->Err_0.kind
                == ErrorKind::Conflict
        }),
{
    law_well_formed_structures_pass(groups);
    reveal(structure_draft_set);
}

/// A structure that is published was well formed and based on the one before. It keeps of the drafts of the
/// branches what is for items that it has.
pub proof fn law_published_structures_are_checked(
    s: State,
    id: Seq<char>,
    comment: Seq<char>,
    request_id: Seq<char>,
    operator: Seq<char>,
    ts: i64,
    now: i64,
    branch: Seq<char>,
    g: Seq<char>,
    k: Seq<char>,
)
    requires
        s.dom().finite(),
        sound(s),
        step(s, CommandView::PublishStructure { project: id, comment, request_id, operator, ts }, now) is Ok,
        branch.len() > 0,
        branch_at(s, id, branch) is Some,
    ensures
        ({
            let t = step(
                s,
                CommandView::PublishStructure { project: id, comment, request_id, operator, ts },
                now,
            )->Ok_0.0;
            let old = branch_at(s, id, branch)->0.value_draft;
            let new = branch_at(t, id, branch)->0.value_draft;
            &&& structure_at(s, id) matches Some(x) && s.contains_key(k_struct_draft(id)) && (
            s[k_struct_draft(id)] matches EntryView::StructureDraft(d) && d.base_version == x.version
                && is_well_formed(d.groups) && (structure_at(t, id) matches Some(y) && y.version
                == x.version + 1 && y.groups == d.groups))
            &&& !t.contains_key(k_struct_draft(id))
            &&& branch_at(t, id, branch) is Some
            &&& is_set(new, g, k) <==> is_set(old, g, k) && (exists|def: ItemDefView| #[trigger]
                defines(structure_at(t, id)->0.groups, g, def) && def.key == k)
            &&& is_set(new, g, k) ==> new[g][k] == old[g][k]
        }),
{
    let at = time_of(ts, now);
    law_structure_publish_advances_every_branch(s, id, comment, request_id, at, operator, branch);
    reveal(publish_structure);
    let draft = read::<StructureDraft>(s, k_struct_draft(id))->Ok_0->0;
    law_well_formed_structures_pass(draft.groups);
    let old = branch_at(s, id, branch)->0.value_draft;
    let groups = draft.groups;
    if is_set(old, g, k) && (exists|def: ItemDefView| #[trigger] defines(groups, g, def) && def.key == k) {
        let def = choose|def: ItemDefView| #[trigger] defines(groups, g, def) && def.key == k;
        let (i, j) = choose|i: int, j: int|
            0 <= i < groups.len() && 0 <= j < groups[i].items.len() && groups[i].name == g && (
            #[trigger] groups[i].items[j]) == def;
        assert(groups[i].items[j].key == k);
        assert(has_item(groups, g, k));
        assert(kept_keys(old, groups, g).contains_key(k));
    }
    if is_set(kept_draft(old, groups), g, k) {
        assert(has_item(groups, g, k));
        let (i, j) = choose|i: int, j: int|
            0 <= i < groups.len() && 0 <= j < groups[i].items.len() && groups[i].name == g && (
            #[trigger] groups[i].items[j]).key == k;
        assert(defines(groups, g, groups[i].items[j]));
    }
}

/// A rollback goes through where the version lies before the active one and both can be read. A request that
/// was answered goes through without effect.
pub proof fn law_rollback_needs_an_earlier_version(
    s: State,
    id: Seq<char>,
    branch: Seq<char>,
    to_version: u64,
    comment: Seq<char>,
    request_id: Seq<char>,
    operator: Seq<char>,
    ts: i64,
    now: i64,
)
    ensures
        ({
            let r = step(
                s,
                CommandView::Rollback { project: id, branch, to_version, comment, request_id, operator, ts },
                now,
            );
            &&& r is Ok <==> (branch_at(s, id, branch) matches Some(st) && (st.last_request_id == Some(
                request_id,
            ) || (0 < to_version < st.active_version < u64::MAX && content(s, id, branch, to_version)
                is Some && content(s, id, branch, st.active_version) is Some)))
            &&& (branch_at(s, id, branch) matches Some(st) && st.last_request_id == Some(request_id))
                ==> r->Ok_0.0 == s && r->Ok_0.1.len() == 0
        }),
{
    reveal(rollback);
}

// ---------------------------------------------------------------------------------------------
// The shared library
// ---------------------------------------------------------------------------------------------

/// A shared item can be drafted where its names are fine, it is marked secret exactly where its type is, its
/// description has at most 200 bytes and its text at most 64 KiB. It is then there as it was given, and
/// nothing else changes.
pub proof fn law_shared_items_are_drafted(s: State, item: SharedItemView, operator: Seq<char>, now: i64)
    ensures
        ({
            let r = step(s, CommandView::SharedDraftUpdate { item, operator }, now);
            let k = k_shared_draft(item.group, item.key);
            &&& r is Ok <==> {
                &&& is_short_name(item.group)
                &&& is_short_name(item.key)
                &&& item.secret <==> item.ty == ValueType::Secret
                &&& item.description matches Some(d) ==> encode_utf8(d).len() <= 200
                &&& encode_utf8(shared_text(item)).len() <= 65536
            }
            &&& r matches Ok((t, events)) ==> {
                &&& events.len() == 0
                &&& t.contains_key(k) && t[k] == EntryView::Shared(item)
                &&& forall|x: Seq<char>| x != k ==> #[trigger] same_at(s, t, x)
            }
        }),
{
    reveal(shared_draft_update);
    lemma_short_name(item.group);
    lemma_short_name(item.key);
}

/// A name of 1 to 128 characters that names may have.
pub open spec fn is_short_name(s: Seq<char>) -> bool {
    1 <= s.len() <= 128 && forall|i: int| 0 <= i < s.len() ==> is_name_char(#[trigger] s[i])
}

proof fn lemma_short_name(s: Seq<char>)
    ensures
        is_key_name(s) == is_short_name(s),
{
    if is_key_name(s) {
        assert forall|i: int| 0 <= i < s.len() implies is_name_char(#[trigger] s[i]) by {
            assert(key_char(s[i]));
        }
    }
    if is_short_name(s) {
        assert forall|i: int| 0 <= i < s.len() implies key_char(#[trigger] s[i]) by {
            assert(is_name_char(s[i]));
        }
    }
}

/// Whether an item of the first group of the name is published in the shared group.
pub open spec fn has_match(s: State, shared_group: Seq<char>, groups: Seq<GroupDefView>, g: Seq<char>) -> bool {
    exists|x: Seq<char>|
        s.contains_key(x) && k_shared_prefix(shared_group).is_prefix_of(x) && (
        #[trigger] s[x] matches EntryView::Shared(item) && item.group == shared_group && is_listed(
            groups,
            g,
            item.key,
        ))
}

/// A reference can be made from an item of the structure to a published item of the shared library, and from
/// a group to a shared group that has something for it. It is then there as it was given, with its mark.
pub proof fn law_references_are_made(
    s: State,
    id: Seq<char>,
    b: RefBindingView,
    operator: Seq<char>,
    now: i64,
)
    ensures
        ({
            let r = step(s, CommandView::RefBind { project: id, binding: b, operator }, now);
            &&& r is Ok ==> {
                &&& is_short_name(b.shared_group) && is_short_name(b.shared_key)
                &&& structure_at(s, id) matches Some(x) && match b.item_key {
                    Some(key) => is_listed(x.groups, b.group, key) && shared_at(
                        s,
                        b.shared_group,
                        b.shared_key,
                    ) is Some,
                    None => has_match(s, b.shared_group, x.groups, b.group),
                }
            }
            &&& r matches Ok((t, events)) ==> {
                &&& events.len() == 0
                &&& t.contains_key(mark_of(id, b))
                &&& k_ref(id, b.group, b.item_key) != mark_of(id, b) ==> t.contains_key(
                    k_ref(id, b.group, b.item_key),
                ) && t[k_ref(id, b.group, b.item_key)] == EntryView::Ref(b)
                &&& forall|k: Seq<char>|
                    k != k_ref(id, b.group, b.item_key) && k != mark_of(id, b) && !(s.contains_key(
                        k_ref(id, b.group, b.item_key),
                    ) && (s[k_ref(id, b.group, b.item_key)] matches EntryView::Ref(old) && k == mark_of(
                        id,
                        old,
                    ))) ==> #[trigger] same_at(s, t, k)
            }
        }),
{
    reveal(ref_bind);
    lemma_short_name(b.shared_group);
    lemma_short_name(b.shared_key);
    let r = step(s, CommandView::RefBind { project: id, binding: b, operator }, now);
    if r is Ok {
        let x = structure_at(s, id)->0;
        lemma_group_index(x.groups, b.group);
        let i = group_index(x.groups, b.group);
        let g = x.groups[i];
        match b.item_key {
            Some(key) => {
                lemma_def_in(g.items, g.items.len(), key);
                let d = def_in(g.items, g.items.len(), key)->0;
                let j = choose|j: int| 0 <= j < g.items.len() && #[trigger] g.items[j] == d;
                assert(x.groups[i].items[j].key == key);
                assert(is_listed(x.groups, b.group, key));
            },
            None => {
                let k = choose|k: Seq<char>|
                    s.contains_key(k) && k_shared_prefix(b.shared_group).is_prefix_of(k) && match_at(
                        #[trigger] s[k],
                        b.shared_group,
                        g,
                    );
                let item = s[k]->Shared_0;
                lemma_def_in(g.items, g.items.len(), item.key);
                let d = def_in(g.items, g.items.len(), item.key)->0;
                let j = choose|j: int| 0 <= j < g.items.len() && #[trigger] g.items[j] == d;
                assert(x.groups[i].items[j].key == item.key);
                assert(is_listed(x.groups, b.group, item.key));
            },
        }
    }
}

/// Taking a reference away leaves neither it nor its mark, and all else as it was.
pub proof fn law_references_are_taken_away(
    s: State,
    id: Seq<char>,
    group: Seq<char>,
    item_key: Option<Seq<char>>,
    operator: Seq<char>,
    now: i64,
)
    ensures
        ({
            let r = step(s, CommandView::RefUnbind { project: id, group, item_key, operator }, now);
            let k = k_ref(id, group, item_key);
            &&& r is Ok <==> (s.contains_key(k) ==> s[k] is Ref)
            &&& r matches Ok((t, events)) ==> {
                &&& events.len() == 0
                &&& !t.contains_key(k)
                &&& !s.contains_key(k) ==> t == s
                &&& s.contains_key(k) ==> !t.contains_key(mark_of(id, s[k]->Ref_0)) && forall|x: Seq<char>|
                    x != k && x != mark_of(id, s[k]->Ref_0) ==> #[trigger] same_at(s, t, x)
            }
        }),
{
    reveal(ref_unbind);
}

/// A branch can be deleted exactly where it has neither a version nor a draft, and is then not there any more.
pub proof fn law_only_empty_branches_are_deleted(
    s: State,
    id: Seq<char>,
    name: Seq<char>,
    operator: Seq<char>,
    now: i64,
)
    ensures
        ({
            let r = step(s, CommandView::BranchDelete { project: id, name, operator }, now);
            &&& r is Ok <==> (branch_at(s, id, name) matches Some(st) && st.active_version == 0
                && st.value_draft == DraftView::empty())
            &&& r matches Ok((t, events)) ==> branch_at(t, id, name) is None && events.len() == 0 && (
            forall|k: Seq<char>|
                !k_branch_prefix(id, name).is_prefix_of(k) ==> #[trigger] same_at(s, t, k))
            &&& (branch_at(s, id, name) matches Some(st) && (st.active_version > 0 || st.value_draft
                != DraftView::empty())) ==> (r matches Err(e) && e.kind == ErrorKind::Conflict)
            &&& !s.contains_key(k_branch_state(id, name)) ==> (r matches Err(e) && e.kind == ErrorKind::NotFound)
        }),
{
    reveal(branch_delete);
    lemma_prefix_of_sum(k_branch_prefix(id, name), K_STATE@);
    assert(k_branch_state(id, name) =~= k_branch_prefix(id, name) + K_STATE@);
}

/// A project can be deleted where it is there. With it go its name, its administrators with their sessions, and
/// the marks of its references; the administrators of other projects stay.
pub proof fn law_projects_are_deleted_with_their_people(
    s: State,
    id: Seq<char>,
    operator: Seq<char>,
    now: i64,
    username: Seq<char>,
    session_id: Seq<char>,
)
    requires
        s.dom().finite(),
    ensures
        ({
            let r = step(s, CommandView::ProjectDelete { id, operator }, now);
            &&& r is Ok <==> project_at(s, id) is Some
            &&& r matches Ok((t, events)) ==> {
                &&& events.len() == 0
                &&& project_at(t, id) is None && structure_at(t, id) is None
                &&& !t.contains_key(k_idx_pname(project_at(s, id)->0.name))
                &&& (account_at(s, username) matches Some(a) && a.username == username && a.project == id)
                    ==> account_at(t, username) is None && !t.contains_key(k_pa_session(username))
                    && !t.contains_key(k_pa_session_with(username, session_id))
            }
        }),
{
    reveal(project_delete);
    let r = step(s, CommandView::ProjectDelete { id, operator }, now);
    if r is Ok {
        reveal_strlit("/struct");
        let pre = k_project(id);
        lemma_prefix_of_sum(pre, K_STRUCT@);
        assert(k_struct(id) =~= pre + K_STRUCT@);
        assert(pre.subrange(0, pre.len() as int) =~= pre);
        if account_at(s, username) matches Some(a) && a.username == username && a.project == id {
            let a = account_at(s, username)->0;
            let k = k_project_admin(username);
            lemma_prefix_of_sum(K_PA_ACCOUNT@, username);
            assert(k =~= K_PA_ACCOUNT@ + username);
            assert(s[k] == EntryView::Account(a));
            law_accounts_are_listed(s, id, a);
            let list = accounts(s, id);
            let i = choose|i: int| 0 <= i < list.len() && list[i] == a;
            assert(list[i].username == username);
            let sessions = k_pa_sessions_prefix(username);
            lemma_prefix_of_sum(sessions, session_id);
            assert(k_pa_session_with(username, session_id) =~= sessions + session_id);
            assert(account_owns(list[i].username, k));
            assert(account_owns(list[i].username, k_pa_session(username)));
            assert(account_owns(list[i].username, k_pa_session_with(username, session_id)));
        }
    }
}

} // verus!
