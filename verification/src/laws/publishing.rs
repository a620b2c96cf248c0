//! What a publish puts into a version: the values of the draft, and where it has none, those that the
//! references of the project bring in from the shared library.
use vstd::prelude::*;

use crate::command::CommandView;
use crate::diff::{item_of, same_items};
use crate::error::{ErrorKind, ErrorView};
use crate::keys::{k_shared, k_struct};
use crate::laws::changes::{alike, has_value};
use crate::laws::checks::{is_of_type, is_publishable, is_right, law_right_drafts_pass};
use crate::laws::commands::law_publish_is_read_back;
use crate::laws::drafts::is_set;
use crate::laws::events::{active_at, content, lemma_alike};
use crate::laws::sound::{branch_at, sound};
use crate::laws::soundness::law_active_version_is_read;
use crate::model::{
    EntryView, GroupDefView, ItemDefView, RefBindingView, SnapView, Structure, ValueView, value_eq,
};
use crate::step::{fold_steps, read, refs, snapshot};
use crate::store::State;
use crate::transition::{
    draft_values, fill_from_shared, group_index, materialised, publish, resolve_ref, step, time_of,
};
use crate::validator::DraftView;

verus! {

/// The value of a published item of the shared library.
pub open spec fn shared_at(s: State, g: Seq<char>, k: Seq<char>) -> Option<ValueView> {
    if s.contains_key(k_shared(g, k)) {
        match s[k_shared(g, k)] {
            EntryView::Shared(x) => Some(x.value),
            _ => None,
        }
    } else {
        None
    }
}

/// Whether the first group of the name has the item.
pub open spec fn is_listed(groups: Seq<GroupDefView>, g: Seq<char>, k: Seq<char>) -> bool {
    exists|i: int, j: int|
        #![trigger groups[i].items[j]]
        0 <= i < groups.len() && groups[i].name == g && 0 <= j < groups[i].items.len()
            && groups[i].items[j].key == k && forall|n: int|
            0 <= n < i ==> (#[trigger] groups[n]).name != g
}

/// What a reference brings in for an item: the shared item that it leads to, or, where it leads to a group
/// of the shared library, the item of that group with the same key.
pub open spec fn brought(
    s: State,
    groups: Seq<GroupDefView>,
    b: RefBindingView,
    g: Seq<char>,
    k: Seq<char>,
) -> Option<ValueView> {
    if b.group != g {
        None
    } else {
        match b.item_key {
            Some(key) => if key == k {
                shared_at(s, b.shared_group, b.shared_key)
            } else {
                None
            },
            None => if is_listed(groups, g, k) {
                shared_at(s, b.shared_group, k)
            } else {
                None
            },
        }
    }
}

/// What the references bring in for an item: the first that brings something decides.
pub open spec fn brought_first(
    s: State,
    groups: Seq<GroupDefView>,
    bs: Seq<RefBindingView>,
    g: Seq<char>,
    k: Seq<char>,
) -> Option<ValueView>
    decreases bs.len(),
{
    if bs.len() == 0 {
        None
    } else {
        match brought(s, groups, bs[0], g, k) {
            Some(v) => Some(v),
            None => brought_first(s, groups, bs.drop_first(), g, k),
        }
    }
}

/// `r` is `m` with values where it had none: at an item, what `more` says.
spec fn is_filled(m: SnapView, r: SnapView, g: Seq<char>, k: Seq<char>, more: Option<ValueView>) -> bool {
    if has_value(m, g, k) {
        has_value(r, g, k) && r[g][k] == m[g][k]
    } else {
        match more {
            Some(v) => has_value(r, g, k) && r[g][k] == v,
            None => !has_value(r, g, k),
        }
    }
}

proof fn lemma_fill(
    s: State,
    m: SnapView,
    group: Seq<char>,
    key: Seq<char>,
    sg: Seq<char>,
    sk: Seq<char>,
    g: Seq<char>,
    k: Seq<char>,
)
    ensures
        fill_from_shared(s, m, group, key, sg, sk) matches Ok(r) ==> is_filled(
            m,
            r,
            g,
            k,
            if g == group && k == key {
                shared_at(s, sg, sk)
            } else {
                None
            },
        ),
{
}

/// Filling in the first items of a group.
proof fn lemma_fill_items(
    s: State,
    m: SnapView,
    items: Seq<ItemDefView>,
    group: Seq<char>,
    sg: Seq<char>,
    g: Seq<char>,
    k: Seq<char>,
)
    requires
        fold_steps(
            items,
            m,
            |a: SnapView, item: ItemDefView| fill_from_shared(s, a, group, item.key, sg, item.key),
        ) is Ok,
    ensures
        is_filled(
            m,
            fold_steps(
                items,
                m,
                |a: SnapView, item: ItemDefView| fill_from_shared(s, a, group, item.key, sg, item.key),
            )->Ok_0,
            g,
            k,
            if g == group && (exists|j: int| 0 <= j < items.len() && (#[trigger] items[j]).key == k) {
                shared_at(s, sg, k)
            } else {
                None
            },
        ),
    decreases items.len(),
{
    let f = |a: SnapView, item: ItemDefView| fill_from_shared(s, a, group, item.key, sg, item.key);
    if items.len() > 0 {
        let front = items.drop_last();
        lemma_fill_items(s, m, front, group, sg, g, k);
        let a = fold_steps(front, m, f)->Ok_0;
        assert(fold_steps(items, m, f) == f(a, items.last()));
        let key = items.last().key;
        lemma_fill(s, a, group, key, sg, key, g, k);
        if exists|j: int| 0 <= j < front.len() && (#[trigger] front[j]).key == k {
            let j = choose|j: int| 0 <= j < front.len() && (#[trigger] front[j]).key == k;
            assert(items[j].key == k);
        }
        if key == k {
            assert(items[items.len() - 1].key == k);
        }
        if exists|j: int| 0 <= j < items.len() && (#[trigger] items[j]).key == k {
            let j = choose|j: int| 0 <= j < items.len() && (#[trigger] items[j]).key == k;
            if j < front.len() {
                assert(front[j].key == k);
            }
        }
    }
}

pub proof fn lemma_group_index(groups: Seq<GroupDefView>, name: Seq<char>)
    ensures
        0 <= group_index(groups, name) <= groups.len(),
        group_index(groups, name) < groups.len() ==> groups[group_index(groups, name)].name == name,
        forall|n: int| 0 <= n < group_index(groups, name) ==> (#[trigger] groups[n]).name != name,
    decreases groups.len(),
{
    if groups.len() > 0 {
        let d = groups.drop_last();
        lemma_group_index(d, name);
        assert forall|n: int| 0 <= n < group_index(groups, name) implies (#[trigger] groups[n]).name
            != name by {
            if n < d.len() {
                assert(d[n] == groups[n]);
            }
        }
        if group_index(d, name) < d.len() {
            assert(d[group_index(d, name)] == groups[group_index(d, name)]);
        }
    }
}

proof fn lemma_resolve(
    s: State,
    groups: Seq<GroupDefView>,
    m: SnapView,
    b: RefBindingView,
    g: Seq<char>,
    k: Seq<char>,
)
    requires
        resolve_ref(s, groups, m, b) is Ok,
    ensures
        is_filled(m, resolve_ref(s, groups, m, b)->Ok_0, g, k, brought(s, groups, b, g, k)),
{
    match b.item_key {
        Some(key) => {
            lemma_fill(s, m, b.group, key, b.shared_group, b.shared_key, g, k);
        },
        None => {
            lemma_group_index(groups, b.group);
            let i = group_index(groups, b.group);
            if i < groups.len() {
                let items = groups[i].items;
                lemma_fill_items(s, m, items, b.group, b.shared_group, g, k);
                if exists|j: int| 0 <= j < items.len() && (#[trigger] items[j]).key == k {
                    let j = choose|j: int| 0 <= j < items.len() && (#[trigger] items[j]).key == k;
                    assert(groups[i].items[j].key == k);
                    assert(is_listed(groups, b.group, k));
                }
            }
            if is_listed(groups, b.group, k) {
                let (x, j) = choose|x: int, j: int|
                    #![trigger groups[x].items[j]]
                    0 <= x < groups.len() && groups[x].name == b.group && 0 <= j < groups[x].items.len()
                        && groups[x].items[j].key == k && forall|n: int|
                        0 <= n < x ==> (#[trigger] groups[n]).name != b.group;
                assert(groups[x].name == b.group);
                assert(x == i);
                assert(groups[i].items[j].key == k);
            }
        },
    }
}

proof fn lemma_brought_last(
    s: State,
    groups: Seq<GroupDefView>,
    bs: Seq<RefBindingView>,
    g: Seq<char>,
    k: Seq<char>,
)
    requires
        bs.len() > 0,
    ensures
        brought_first(s, groups, bs, g, k) == (match brought_first(s, groups, bs.drop_last(), g, k) {
            Some(v) => Some(v),
            None => brought(s, groups, bs.last(), g, k),
        }),
    decreases bs.len(),
{
    if bs.len() > 1 {
        assert(bs.drop_first().drop_last() =~= bs.drop_last().drop_first());
        assert(bs.drop_last()[0] == bs[0]);
        lemma_brought_last(s, groups, bs.drop_first(), g, k);
    } else {
        assert(bs.drop_first() =~= Seq::empty());
        assert(bs.drop_last() =~= Seq::empty());
    }
}

proof fn lemma_resolve_all(
    s: State,
    groups: Seq<GroupDefView>,
    bs: Seq<RefBindingView>,
    m: SnapView,
    g: Seq<char>,
    k: Seq<char>,
)
    requires
        fold_steps(bs, m, |a: SnapView, b: RefBindingView| resolve_ref(s, groups, a, b)) is Ok,
    ensures
        is_filled(
            m,
            fold_steps(bs, m, |a: SnapView, b: RefBindingView| resolve_ref(s, groups, a, b))->Ok_0,
            g,
            k,
            brought_first(s, groups, bs, g, k),
        ),
    decreases bs.len(),
{
    if bs.len() > 0 {
        let f = |a: SnapView, b: RefBindingView| resolve_ref(s, groups, a, b);
        let a = fold_steps(bs.drop_last(), m, f)->Ok_0;
        assert(fold_steps(bs, m, f) == f(a, bs.last()));
        lemma_resolve_all(s, groups, bs.drop_last(), m, g, k);
        lemma_resolve(s, groups, a, bs.last(), g, k);
        lemma_brought_last(s, groups, bs, g, k);
    }
}

/// A publish that makes a version puts the values of the draft into it, and what the references of the
/// project bring in where the draft has nothing; it puts nothing else into it. All values of the draft fit
/// the structure, and none that it requires is missing.
pub proof fn law_publish_takes_the_draft(
    s: State,
    id: Seq<char>,
    branch: Seq<char>,
    comment: Seq<char>,
    request_id: Seq<char>,
    operator: Seq<char>,
    ts: i64,
    now: i64,
    g: Seq<char>,
    k: Seq<char>,
)
    requires
        sound(s),
        step(
            s,
            CommandView::Publish { project: id, branch, comment, request_id, operator, ts },
            now,
        ) is Ok,
        branch_at(s, id, branch) matches Some(st) && st.last_request_id != Some(request_id),
    ensures
        ({
            let t = step(
                s,
                CommandView::Publish { project: id, branch, comment, request_id, operator, ts },
                now,
            )->Ok_0.0;
            let draft = branch_at(s, id, branch)->0.value_draft;
            let structure = read::<Structure>(s, k_struct(id))->Ok_0->0;
            let from_shared = brought_first(s, structure.groups, refs(s, id), g, k);
            &&& read::<Structure>(s, k_struct(id)) matches Ok(Some(_))
            &&& is_publishable(draft, structure)
            &&& draft != DraftView::empty()
            &&& branch_at(t, id, branch)->0.value_draft == DraftView::empty()
            &&& content(t, id, branch, active_at(t, id, branch)) matches Some(m) && (if is_set(
                draft,
                g,
                k,
            ) {
                has_value(m, g, k) && alike(m[g][k], draft[g][k].value)
            } else if from_shared is Some {
                has_value(m, g, k) && alike(m[g][k], from_shared->0)
            } else {
                !has_value(m, g, k)
            })
        }),
{
    let at = time_of(ts, now);
    law_publish_is_read_back(s, id, branch, comment, request_id, at, operator);
    reveal(publish);
    let st = branch_at(s, id, branch)->0;
    let draft = st.value_draft;
    let structure = read::<Structure>(s, k_struct(id))->Ok_0->0;
    law_right_drafts_pass(draft, structure);
    let t = publish(s, id, branch, comment, request_id, at, operator)->Ok_0.0;
    let new = materialised(s, id, structure.groups, draft)->Ok_0;
    let m = snapshot(t, id, branch, active_at(t, id, branch))->Ok_0;
    lemma_resolve_all(s, structure.groups, refs(s, id), draft_values(draft), g, k);
    assert(has_value(draft_values(draft), g, k) == is_set(draft, g, k));
    assert(same_items(m, new));
    assert(match (item_of(m, g, k), item_of(new, g, k)) {
        (Some(x), Some(y)) => value_eq(x, y),
        (None, None) => true,
        _ => false,
    });
    lemma_alike(m[g][k], new[g][k], m[g][k]);
}

/// In the version that a publish makes, every item of the structure that the draft has a value for has a
/// value of its type.
pub proof fn law_published_values_have_their_types(
    s: State,
    id: Seq<char>,
    branch: Seq<char>,
    comment: Seq<char>,
    request_id: Seq<char>,
    operator: Seq<char>,
    ts: i64,
    now: i64,
    i: int,
    j: int,
)
    requires
        sound(s),
        step(
            s,
            CommandView::Publish { project: id, branch, comment, request_id, operator, ts },
            now,
        ) is Ok,
        branch_at(s, id, branch) matches Some(st) && st.last_request_id != Some(request_id),
        read::<Structure>(s, k_struct(id)) matches Ok(Some(x)) && 0 <= i < x.groups.len() && 0 <= j
            < x.groups[i].items.len(),
    ensures
        ({
            let t = step(
                s,
                CommandView::Publish { project: id, branch, comment, request_id, operator, ts },
                now,
            )->Ok_0.0;
            let group = read::<Structure>(s, k_struct(id))->Ok_0->0.groups[i];
            let item = group.items[j];
            let set = is_set(branch_at(s, id, branch)->0.value_draft, group.name, item.key);
            &&& item.required ==> set
            &&& set ==> (content(t, id, branch, active_at(t, id, branch)) matches Some(m) && has_value(
                m,
                group.name,
                item.key,
            ) && is_of_type(m[group.name][item.key], item.ty))
        }),
{
    let structure = read::<Structure>(s, k_struct(id))->Ok_0->0;
    let group = structure.groups[i];
    let item = structure.groups[i].items[j];
    law_publish_takes_the_draft(
        s,
        id,
        branch,
        comment,
        request_id,
        operator,
        ts,
        now,
        group.name,
        item.key,
    );
    assert(is_right(branch_at(s, id, branch)->0.value_draft, group.name, item));
}

/// Whether what the references lead to can be read.
pub open spec fn is_readable_library(s: State) -> bool {
    forall|g: Seq<char>, k: Seq<char>|
        s.contains_key(#[trigger] k_shared(g, k)) ==> s[k_shared(g, k)] is Shared
}

proof fn lemma_resolve_passes(s: State, groups: Seq<GroupDefView>, m: SnapView, b: RefBindingView)
    requires
        is_readable_library(s),
    ensures
        resolve_ref(s, groups, m, b) is Ok,
{
    match b.item_key {
        Some(_) => {},
        None => {
            let i = group_index(groups, b.group);
            if i < groups.len() {
                lemma_fold_passes(
                    groups[i].items,
                    m,
                    |a: SnapView, item: ItemDefView|
                        fill_from_shared(s, a, b.group, item.key, b.shared_group, item.key),
                );
            }
        },
    }
}

/// Steps that cannot fail do not fail together.
proof fn lemma_fold_passes<A, X>(xs: Seq<X>, a: A, f: spec_fn(A, X) -> Result<A, ErrorView>)
    requires
        forall|b: A, x: X| (#[trigger] f(b, x)) is Ok,
    ensures
        fold_steps(xs, a, f) is Ok,
    decreases xs.len(),
{
    if xs.len() > 0 {
        lemma_fold_passes(xs.drop_last(), a, f);
        assert(f(fold_steps(xs.drop_last(), a, f)->Ok_0, xs.last()) is Ok);
    }
}

/// A publish goes through where there is a draft and it is right about every item of the structure. A request
/// that was answered goes through without effect; without a draft, or with a wrong one, there is an error that
/// says so.
pub proof fn law_right_drafts_are_published(
    s: State,
    id: Seq<char>,
    branch: Seq<char>,
    comment: Seq<char>,
    request_id: Seq<char>,
    operator: Seq<char>,
    ts: i64,
    now: i64,
)
    requires
        sound(s),
        is_readable_library(s),
        read::<Structure>(s, k_struct(id)) matches Ok(Some(_)),
        branch_at(s, id, branch) matches Some(st) && st.active_version < u64::MAX,
    ensures
        ({
            let r = step(
                s,
                CommandView::Publish { project: id, branch, comment, request_id, operator, ts },
                now,
            );
            let st = branch_at(s, id, branch)->0;
            let structure = read::<Structure>(s, k_struct(id))->Ok_0->0;
            if st.last_request_id == Some(request_id) {
                r matches Ok(x) && x.0 == s && x.1.len() == 0
            } else if st.value_draft == DraftView::empty() {
                r matches Err(e) && e.kind == ErrorKind::NoDraft
            } else if !is_publishable(st.value_draft, structure) {
                r matches Err(e) && e.kind == ErrorKind::PublishBlocked
            } else {
                r is Ok
            }
        }),
{
    reveal(publish);
    let st = branch_at(s, id, branch)->0;
    let structure = read::<Structure>(s, k_struct(id))->Ok_0->0;
    law_right_drafts_pass(st.value_draft, structure);
    let f = |m: SnapView, b: RefBindingView| resolve_ref(s, structure.groups, m, b);
    assert forall|m: SnapView, b: RefBindingView| (#[trigger] f(m, b)) is Ok by {
        lemma_resolve_passes(s, structure.groups, m, b);
    }
    lemma_fold_passes(refs(s, id), draft_values(st.value_draft), f);
    if st.active_version > 0 {
        law_active_version_is_read(s, id, branch);
    }
}

} // verus!
