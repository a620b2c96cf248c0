//! What the checks let through: values that fit their items, drafts that can be published, and structures
//! that are well formed.
use vstd::prelude::*;
use vstd::utf8::encode_utf8;

use crate::command::{CommandView, DraftUpdateItemView};
use crate::error::ErrorView;
use crate::gather::{gather, lemma_gather_empty};
use crate::json::value_text;
use crate::keys::k_struct;
use crate::laws::drafts::is_set;
use crate::laws::sound::branch_at;
use crate::limits::MAX_ARRAY_ELEMENT_BYTES;
use crate::model::{
    GroupDefView, ItemDefView, Structure, StructureView, ValueType, ValueView,
};
use crate::ordmap::listing;
use crate::outside::json_valid;
use crate::step::{fold_steps, read};
use crate::store::State;
use crate::transition::{check_update, def_in, def_of, draft_size, draft_update, step};
use crate::validator::{
    DraftView, count_items, group_def_errors, group_errors, is_key_name, item_def_errors,
    item_errors, key_char, publish_errors, some_long, structure_errors, utf8_len, value_errors,
};

verus! {

/// Whether a value is of the type.
pub open spec fn is_of_type(v: ValueView, ty: ValueType) -> bool {
    match ty {
        ValueType::String => v is String,
        ValueType::Int => v is Int,
        ValueType::Float => v is Float,
        ValueType::Bool => v is Bool,
        ValueType::Json => v is Json,
        ValueType::Array => v is Array,
        ValueType::Secret => v is Secret,
    }
}

/// Whether a value fits an item of the type: it is of that type, a text has at most 64 KiB, the elements of
/// a list have at most 8 KiB each, and a JSON document can be read.
pub open spec fn fits(v: ValueView, ty: ValueType) -> bool {
    &&& is_of_type(v, ty)
    &&& v matches ValueView::String(s) ==> encode_utf8(s).len() <= 65536
    &&& v matches ValueView::Json(s) ==> json_valid(s)
    &&& v matches ValueView::Array(a) ==> forall|i: int|
        0 <= i < a.len() ==> encode_utf8(#[trigger] a[i]).len() <= 8192
}

/// A value has no errors exactly where it fits, and at most one elsewhere.
pub proof fn law_fitting_values_pass(def: ItemDefView, v: ValueView)
    ensures
        value_errors(def, v).len() == 0 <==> fits(v, def.ty),
        value_errors(def, v).len() <= 1,
{
    if v is Array {
        let a = v->Array_0;
        if !some_long(a) {
            assert forall|i: int| 0 <= i < a.len() implies encode_utf8(#[trigger] a[i]).len() <= 8192 by {
                assert(utf8_len(a[i]) <= MAX_ARRAY_ELEMENT_BYTES);
            }
        } else {
            let i = choose|i: int|
                0 <= i < a.len() && utf8_len(#[trigger] a[i]) > MAX_ARRAY_ELEMENT_BYTES;
            assert(encode_utf8(a[i]).len() > 8192);
        }
    }
}

/// Empty parts make nothing.
pub proof fn lemma_nothing_gathered<T>(n: nat, f: spec_fn(int) -> Seq<T>)
    requires
        forall|i: int| 0 <= i < n ==> (#[trigger] f(i)).len() == 0,
    ensures
        gather(n, f).len() == 0,
    decreases n,
{
    if n > 0 {
        lemma_nothing_gathered((n - 1) as nat, f);
        assert(f(n - 1).len() == 0);
    }
}

/// Whether the draft is right about the item: a value that it has fits, and it has one where one is
/// required.
pub open spec fn is_right(draft: DraftView, group: Seq<char>, item: ItemDefView) -> bool {
    if is_set(draft, group, item.key) {
        fits(draft[group][item.key].value, item.ty)
    } else {
        !item.required
    }
}

/// Whether the draft is right about every item of the structure.
pub open spec fn is_publishable(draft: DraftView, s: StructureView) -> bool {
    forall|i: int, j: int|
        0 <= i < s.groups.len() && 0 <= j < s.groups[i].items.len() ==> is_right(
            draft,
            s.groups[i].name,
            #[trigger] s.groups[i].items[j],
        )
}

/// A draft can be published exactly where it is right about every item of the structure.
pub proof fn law_right_drafts_pass(draft: DraftView, s: StructureView)
    ensures
        publish_errors(draft, s).len() == 0 <==> is_publishable(draft, s),
{
    let f = |i: int| group_errors(draft, s.groups[i]);
    assert forall|i: int, j: int|
        0 <= i < s.groups.len() && 0 <= j < s.groups[i].items.len() implies is_right(
        draft,
        s.groups[i].name,
        #[trigger] s.groups[i].items[j],
    ) == (item_errors(draft, s.groups[i].name, s.groups[i].items[j]).len() == 0) by {
        let item = s.groups[i].items[j];
        if is_set(draft, s.groups[i].name, item.key) {
            law_fitting_values_pass(item, draft[s.groups[i].name][item.key].value);
        }
    }
    if publish_errors(draft, s).len() == 0 {
        lemma_gather_empty(s.groups.len(), f);
        assert forall|i: int, j: int|
            0 <= i < s.groups.len() && 0 <= j < s.groups[i].items.len() implies is_right(
            draft,
            s.groups[i].name,
            #[trigger] s.groups[i].items[j],
        ) by {
            let g = s.groups[i];
            let h = |j: int| item_errors(draft, g.name, g.items[j]);
            assert(f(i).len() == 0);
            lemma_gather_empty(g.items.len(), h);
            assert(h(j).len() == 0);
        }
    }
    if is_publishable(draft, s) {
        assert forall|i: int| 0 <= i < s.groups.len() implies (#[trigger] f(i)).len() == 0 by {
            let g = s.groups[i];
            let h = |j: int| item_errors(draft, g.name, g.items[j]);
            assert forall|j: int| 0 <= j < g.items.len() implies (#[trigger] h(j)).len() == 0 by {
                assert(is_right(draft, s.groups[i].name, s.groups[i].items[j]));
            }
            lemma_nothing_gathered(g.items.len(), h);
        }
        lemma_nothing_gathered(s.groups.len(), f);
    }
}

// ---------------------------------------------------------------------------------------------
// Structures
// ---------------------------------------------------------------------------------------------

/// A character of the names of groups and items.
pub open spec fn is_name_char(c: char) -> bool {
    c == '.' || c == '_' || c == '-' || '0' <= c <= '9' || 'A' <= c <= 'Z' || 'a' <= c <= 'z'
}

/// A name of a group or an item: between 1 and 128 characters.
pub open spec fn is_fine_name(s: Seq<char>) -> bool {
    &&& 1 <= s.len() <= 128
    &&& encode_utf8(s).len() <= 128
    &&& forall|i: int| 0 <= i < s.len() ==> is_name_char(#[trigger] s[i])
}

/// Whether an item is defined as it may be.
pub open spec fn is_fine_item(item: ItemDefView) -> bool {
    &&& is_fine_name(item.key)
    &&& item.secret ==> item.ty == ValueType::Secret
    &&& item.description matches Some(d) ==> encode_utf8(d).len() <= 200
}

/// No two items of a group have one key.
pub open spec fn are_distinct(items: Seq<ItemDefView>) -> bool {
    forall|i: int, j: int| 0 <= i < j < items.len() ==> (#[trigger] items[i]).key != (#[trigger] items[j]).key
}

/// Whether a group is defined as it may be.
pub open spec fn is_fine_group(g: GroupDefView) -> bool {
    &&& is_fine_name(g.name)
    &&& are_distinct(g.items)
    &&& forall|j: int| 0 <= j < g.items.len() ==> is_fine_item(#[trigger] g.items[j])
}

/// The number of items of a structure.
pub open spec fn size_of(groups: Seq<GroupDefView>) -> nat
    decreases groups.len(),
{
    if groups.len() == 0 {
        0
    } else {
        size_of(groups.drop_last()) + groups.last().items.len()
    }
}

/// Whether a structure is well formed: fine groups with different names, at most 500 of them, with at most
/// 10000 items.
pub open spec fn is_well_formed(groups: Seq<GroupDefView>) -> bool {
    &&& groups.len() <= 500
    &&& size_of(groups) <= 10000
    &&& forall|i: int| 0 <= i < groups.len() ==> is_fine_group(#[trigger] groups[i])
    &&& forall|i: int, j: int|
        0 <= i < j < groups.len() ==> (#[trigger] groups[i]).name != (#[trigger] groups[j]).name
}

proof fn lemma_size(groups: Seq<GroupDefView>, n: nat)
    requires
        n <= groups.len(),
    ensures
        count_items(groups, n) == size_of(groups.take(n as int)),
    decreases n,
{
    if n > 0 {
        lemma_size(groups, (n - 1) as nat);
        assert(groups.take(n as int).drop_last() =~= groups.take(n - 1));
        assert(groups.take(n as int).last() == groups[n - 1]);
    } else {
        assert(groups.take(0).len() == 0);
    }
}

proof fn lemma_name(s: Seq<char>, max: nat)
    requires
        max == 128,
    ensures
        is_fine_name(s) == (!(utf8_len(s) > max || s.len() == 0) && is_key_name(s)),
{
    if is_fine_name(s) {
        assert forall|i: int| 0 <= i < s.len() implies key_char(#[trigger] s[i]) by {
            assert(is_name_char(s[i]));
        }
    }
    if is_key_name(s) {
        assert forall|i: int| 0 <= i < s.len() implies is_name_char(#[trigger] s[i]) by {
            assert(key_char(s[i]));
        }
    }
}

proof fn lemma_item(g: GroupDefView, i: int)
    requires
        0 <= i < g.items.len(),
    ensures
        item_def_errors(g, i).len() == 0 <==> is_fine_item(g.items[i]) && !(exists|j: int|
            0 <= j < i && (#[trigger] g.items[j]).key == g.items[i].key),
{
    lemma_name(g.items[i].key, 128);
}

proof fn lemma_group(groups: Seq<GroupDefView>, i: int)
    requires
        0 <= i < groups.len(),
    ensures
        group_def_errors(groups, i).len() == 0 <==> is_fine_group(groups[i]) && !(exists|j: int|
            0 <= j < i && (#[trigger] groups[j]).name == groups[i].name),
{
    let g = groups[i];
    lemma_name(g.name, 128);
    let h = |j: int| item_def_errors(g, j);
    assert forall|j: int| 0 <= j < g.items.len() implies ((#[trigger] h(j)).len() == 0 <==> is_fine_item(
        g.items[j],
    ) && !(exists|m: int| 0 <= m < j && (#[trigger] g.items[m]).key == g.items[j].key)) by {
        lemma_item(g, j);
    }
    if gather(g.items.len(), h).len() == 0 {
        lemma_gather_empty(g.items.len(), h);
        assert forall|j: int| 0 <= j < g.items.len() implies is_fine_item(#[trigger] g.items[j]) by {
            assert(h(j).len() == 0);
        }
        assert forall|a: int, b: int| 0 <= a < b < g.items.len() implies (#[trigger] g.items[a]).key != (
        #[trigger] g.items[b]).key by {
            assert(h(b).len() == 0);
        }
    }
    if is_fine_group(g) {
        assert forall|j: int| 0 <= j < g.items.len() implies (#[trigger] h(j)).len() == 0 by {
            assert(is_fine_item(g.items[j]));
        }
        lemma_nothing_gathered(g.items.len(), h);
    }
    assert(group_def_errors(groups, i).len() == 0 ==> gather(g.items.len(), h).len() == 0);
}

/// A structure has no errors exactly where it is well formed.
pub proof fn law_well_formed_structures_pass(groups: Seq<GroupDefView>)
    ensures
        structure_errors(groups).len() == 0 <==> is_well_formed(groups),
{
    let f = |i: int| group_def_errors(groups, i);
    lemma_size(groups, groups.len());
    assert(groups.take(groups.len() as int) =~= groups);
    assert forall|i: int| 0 <= i < groups.len() implies ((#[trigger] f(i)).len() == 0 <==> is_fine_group(
        groups[i],
    ) && !(exists|j: int| 0 <= j < i && (#[trigger] groups[j]).name == groups[i].name)) by {
        lemma_group(groups, i);
    }
    if gather(groups.len(), f).len() == 0 {
        lemma_gather_empty(groups.len(), f);
        assert forall|i: int| 0 <= i < groups.len() implies is_fine_group(#[trigger] groups[i]) by {
            assert(f(i).len() == 0);
        }
        assert forall|i: int, j: int| 0 <= i < j < groups.len() implies (#[trigger] groups[i]).name != (
        #[trigger] groups[j]).name by {
            assert(f(j).len() == 0);
        }
    }
    if is_well_formed(groups) {
        assert forall|i: int| 0 <= i < groups.len() implies (#[trigger] f(i)).len() == 0 by {
            assert(is_fine_group(groups[i]));
        }
        lemma_nothing_gathered(groups.len(), f);
    }
}

// ---------------------------------------------------------------------------------------------
// Edits
// ---------------------------------------------------------------------------------------------

/// Whether the structure has the item, defined as `def`.
pub open spec fn defines(groups: Seq<GroupDefView>, g: Seq<char>, def: ItemDefView) -> bool {
    exists|i: int, j: int|
        0 <= i < groups.len() && 0 <= j < groups[i].items.len() && groups[i].name == g && (
        #[trigger] groups[i].items[j]) == def
}

pub proof fn lemma_def_in(items: Seq<ItemDefView>, n: nat, k: Seq<char>)
    requires
        n <= items.len(),
    ensures
        def_in(items, n, k) matches Some(d) ==> d.key == k && exists|j: int|
            0 <= j < n && #[trigger] items[j] == d,
    decreases n,
{
    if n > 0 {
        if items[n - 1].key == k {
            assert(items[n - 1] == def_in(items, n, k)->0);
        } else {
            lemma_def_in(items, (n - 1) as nat, k);
        }
    }
}

pub proof fn lemma_def_of(groups: Seq<GroupDefView>, n: nat, g: Seq<char>, k: Seq<char>)
    requires
        n <= groups.len(),
    ensures
        def_of(groups, n, g, k) matches Some(d) ==> d.key == k && defines(groups, g, d),
    decreases n,
{
    if n > 0 {
        let x = groups[n - 1];
        lemma_def_in(x.items, x.items.len(), k);
        if x.name == g && def_in(x.items, x.items.len(), k) is Some {
            let d = def_in(x.items, x.items.len(), k)->0;
            let j = choose|j: int| 0 <= j < x.items.len() && #[trigger] x.items[j] == d;
            assert(groups[n - 1].items[j] == d);
        } else {
            lemma_def_of(groups, (n - 1) as nat, g, k);
        }
    }
}

/// What a fold lets through, each step lets through.
pub proof fn lemma_all_passed<A, X>(xs: Seq<X>, a: A, f: spec_fn(A, X) -> Result<A, ErrorView>, n: int) -> (b: A)
    requires
        fold_steps(xs, a, f) is Ok,
        0 <= n < xs.len(),
    ensures
        f(b, xs[n]) is Ok,
    decreases xs.len(),
{
    if n == xs.len() - 1 {
        fold_steps(xs.drop_last(), a, f)->Ok_0
    } else {
        assert(xs.drop_last()[n] == xs[n]);
        lemma_all_passed(xs.drop_last(), a, f, n)
    }
}

/// An edit that goes through is right in every update: the structure of the project has the item, the value
/// fits it, and its value does not come from the shared library.
pub proof fn law_edits_are_checked(
    s: State,
    id: Seq<char>,
    branch: Seq<char>,
    updates: Seq<DraftUpdateItemView>,
    deletes: Seq<(Seq<char>, Seq<char>)>,
    operator: Seq<char>,
    ts: i64,
    now: i64,
    n: int,
)
    requires
        step(
            s,
            CommandView::DraftUpdate { project: id, branch, updates, deletes, operator, ts },
            now,
        ) is Ok,
        0 <= n < updates.len(),
    ensures
        read::<Structure>(s, k_struct(id)) matches Ok(Some(structure)) && exists|def: ItemDefView| #[trigger]
            defines(structure.groups, updates[n].group, def) && def.key == updates[n].key && fits(
                updates[n].value,
                def.ty,
            ) && def.shared_ref is None,
{
    reveal(draft_update);
    let st = branch_at(s, id, branch)->0;
    let structure = read::<Structure>(s, k_struct(id))->Ok_0->0;
    let f = |total: nat, u: DraftUpdateItemView|
        check_update(structure.groups, st.value_draft, total, u);
    let u = updates[n];
    let total = lemma_all_passed(updates, draft_size(listing(st.value_draft)), f, n);
    assert(f(total, u) is Ok);
    lemma_def_of(structure.groups, structure.groups.len(), u.group, u.key);
    let def = def_of(structure.groups, structure.groups.len(), u.group, u.key)->0;
    law_fitting_values_pass(def, u.value);
}

proof fn lemma_def_found(groups: Seq<GroupDefView>, n: nat, g: Seq<char>, def: ItemDefView)
    requires
        is_well_formed(groups),
        n <= groups.len(),
        exists|i: int, j: int|
            0 <= i < n && 0 <= j < groups[i].items.len() && groups[i].name == g && (
            #[trigger] groups[i].items[j]) == def,
    ensures
        def_of(groups, n, g, def.key) == Some(def),
    decreases n,
{
    let (i, j) = choose|i: int, j: int|
        0 <= i < n && 0 <= j < groups[i].items.len() && groups[i].name == g && (
        #[trigger] groups[i].items[j]) == def;
    let x = groups[n - 1];
    assert(is_fine_group(groups[i]));
    if i == n - 1 {
        lemma_def_in_found(x.items, x.items.len(), j);
    } else {
        assert(groups[i].name != groups[n - 1].name);
        lemma_def_found(groups, (n - 1) as nat, g, def);
    }
}

proof fn lemma_def_in_found(items: Seq<ItemDefView>, n: nat, j: int)
    requires
        are_distinct(items),
        0 <= j < n <= items.len(),
    ensures
        def_in(items, n, items[j].key) == Some(items[j]),
    decreases n,
{
    if j < n - 1 {
        assert(items[j].key != items[n - 1].key);
        lemma_def_in_found(items, (n - 1) as nat, j);
    }
}

/// Whether an update may be made: the structure has the item, not from the shared library, and the value fits it
/// and has a text of at most 64 KiB.
pub open spec fn is_right_update(groups: Seq<GroupDefView>, u: DraftUpdateItemView) -> bool {
    &&& encode_utf8(value_text(u.value)).len() <= 65536
    &&& exists|def: ItemDefView| #[trigger]
        defines(groups, u.group, def) && def.key == u.key && fits(u.value, def.ty) && def.shared_ref is None
}

proof fn lemma_checks_pass(
    groups: Seq<GroupDefView>,
    draft: DraftView,
    updates: Seq<DraftUpdateItemView>,
    start: nat,
)
    requires
        is_well_formed(groups),
        start + updates.len() <= 10000,
        forall|i: int| 0 <= i < updates.len() ==> is_right_update(groups, #[trigger] updates[i]),
    ensures
        fold_steps(
            updates,
            start,
            |total: nat, u: DraftUpdateItemView| check_update(groups, draft, total, u),
        ) matches Ok(n) && n <= start + updates.len(),
    decreases updates.len(),
{
    if updates.len() > 0 {
        let f = |total: nat, u: DraftUpdateItemView| check_update(groups, draft, total, u);
        let front = updates.drop_last();
        assert forall|i: int| 0 <= i < front.len() implies is_right_update(groups, #[trigger] front[i]) by {
            assert(front[i] == updates[i]);
        }
        lemma_checks_pass(groups, draft, front, start);
        let u = updates[updates.len() - 1];
        assert(is_right_update(groups, u));
        let def = choose|def: ItemDefView| #[trigger]
            defines(groups, u.group, def) && def.key == u.key && fits(u.value, def.ty) && def.shared_ref is None;
        lemma_def_found(groups, groups.len(), u.group, def);
        law_fitting_values_pass(def, u.value);
        let n = fold_steps(front, start, f)->Ok_0;
        assert(fold_steps(updates, start, f) == f(n, u));
    }
}

/// An edit whose updates may all be made goes through, while the draft has room for them.
pub proof fn law_right_edits_go_through(
    s: State,
    id: Seq<char>,
    branch: Seq<char>,
    updates: Seq<DraftUpdateItemView>,
    deletes: Seq<(Seq<char>, Seq<char>)>,
    operator: Seq<char>,
    ts: i64,
    now: i64,
)
    requires
        branch_at(s, id, branch) matches Some(st) && st.draft_rev < u64::MAX && draft_size(
            listing(st.value_draft),
        ) + updates.len() <= 10000,
        read::<Structure>(s, k_struct(id)) matches Ok(Some(x)) && is_well_formed(x.groups) && forall|i: int|
            0 <= i < updates.len() ==> is_right_update(x.groups, #[trigger] updates[i]),
    ensures
        step(
            s,
            CommandView::DraftUpdate { project: id, branch, updates, deletes, operator, ts },
            now,
        ) is Ok,
{
    reveal(draft_update);
    let st = branch_at(s, id, branch)->0;
    let x = read::<Structure>(s, k_struct(id))->Ok_0->0;
    lemma_checks_pass(x.groups, st.value_draft, updates, draft_size(listing(st.value_draft)));
}

} // verus!
