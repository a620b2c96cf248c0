//! What publishing a shared item brings to those that refer to it.
use vstd::prelude::*;

use crate::diff::{item_of, put_item, same_items};
use crate::error::ErrorView;
use crate::keys::{
    K_IDX_REF, K_IDX_REFG, K_PROJECT, K_SHARED_DRAFT, k_branch_state, k_diff, k_group_ref_index,
    k_idx_ref, k_idx_refg, k_project, k_ref_index, k_shared, k_shared_draft, k_snapshot, k_struct,
    k_version,
};
use crate::laws::commands::lemma_cascade_branch;
use crate::laws::paths::{
    in_project, is_part, lemma_branch_keys, lemma_joined_parts, lemma_outside_keys,
    lemma_prefix_of_sum, lemma_project_parts, lemma_struct_parts, parts,
};
use crate::laws::projects::{lemma_branches_listed, lemma_has_branch};
use crate::laws::sound::{branch_at, in_place, lemma_snapshot_same, same_at, same_version, sound};
use crate::laws::steps::{
    lemma_branch_names, lemma_fold_keeps, lemma_outside, lemma_same_branches, same_branches,
};
use crate::laws::versions::keeps_branch;
use crate::model::{EntryView, SharedItem, SharedItemView, SnapView, Structure, ValueView, value_eq};
use crate::ordmap::{has_row, lemma_listing_exists};
use crate::step::{active_content, branches, fold_steps, read, shared_under, snapshot};
use crate::store::{State, scan, under};
use crate::text::lemma_split_single;
use crate::transition::{
    Progress, cascade, cascade_branch, cascade_group_row, cascade_item_row, has_item, next_number,
    shared_publish, shared_step, target,
};

verus! {

/// The active version of the branch has the item, with the value.
pub open spec fn holds_value(
    s: State,
    id: Seq<char>,
    branch: Seq<char>,
    group: Seq<char>,
    key: Seq<char>,
    value: ValueView,
) -> bool {
    branch_at(s, id, branch) matches Some(st) && st.active_version > 0 && (snapshot(
        s,
        id,
        branch,
        st.active_version,
    ) matches Ok(m) && (item_of(m, group, key) matches Some(x) && value_eq(x, value)))
}

/// Two configurations with the same items agree on each.
proof fn lemma_item_agrees(
    m: SnapView,
    n: SnapView,
    group: Seq<char>,
    key: Seq<char>,
    value: ValueView,
)
    requires
        same_items(m, n),
        item_of(n, group, key) matches Some(x) && value_eq(x, value),
    ensures
        item_of(m, group, key) matches Some(x) && value_eq(x, value),
{
    assert(match (item_of(m, group, key), item_of(n, group, key)) {
        (Some(x), Some(y)) => value_eq(x, y),
        (None, None) => true,
        _ => false,
    });
}

/// What a fold turns: `p` holds up to the step `at`, which makes it `q`, and the later steps keep `q`.
proof fn lemma_fold_turns<A, X>(
    xs: Seq<X>,
    at: int,
    a: A,
    f: spec_fn(A, X) -> Result<A, ErrorView>,
    p: spec_fn(A) -> bool,
    q: spec_fn(A) -> bool,
)
    requires
        0 <= at < xs.len(),
        p(a),
        fold_steps(xs, a, f) is Ok,
        forall|b: A, i: int|
            0 <= i < at && p(b) && (#[trigger] f(b, xs[i])) is Ok ==> p(f(b, xs[i])->Ok_0),
        forall|b: A| p(b) && (#[trigger] f(b, xs[at])) is Ok ==> q(f(b, xs[at])->Ok_0),
        forall|b: A, i: int|
            at < i < xs.len() && q(b) && (#[trigger] f(b, xs[i])) is Ok ==> q(f(b, xs[i])->Ok_0),
    ensures
        q(fold_steps(xs, a, f)->Ok_0),
    decreases xs.len(),
{
    let d = xs.drop_last();
    let b = fold_steps(d, a, f)->Ok_0;
    let last = xs.len() - 1;
    assert(xs.last() == xs[last]);
    assert(f(b, xs[last]) is Ok);
    assert forall|c: A, i: int| 0 <= i < d.len() && p(c) && (#[trigger] f(c, d[i])) is Ok implies f(
        c,
        d[i],
    ) == f(c, xs[i]) by {}
    if at == last {
        lemma_fold_keeps_listed(d, a, f, p);
        assert(p(b));
    } else {
        assert(d[at] == xs[at]);
        assert forall|c: A, i: int|
            0 <= i < at && p(c) && (#[trigger] f(c, d[i])) is Ok implies p(f(c, d[i])->Ok_0) by {
            assert(d[i] == xs[i]);
            assert(f(c, xs[i]) is Ok);
        }
        assert forall|c: A| p(c) && (#[trigger] f(c, d[at])) is Ok implies q(f(c, d[at])->Ok_0) by {
            assert(f(c, xs[at]) is Ok);
        }
        assert forall|c: A, i: int|
            at < i < d.len() && q(c) && (#[trigger] f(c, d[i])) is Ok implies q(f(c, d[i])->Ok_0) by {
            assert(d[i] == xs[i]);
            assert(f(c, xs[i]) is Ok);
        }
        lemma_fold_turns(d, at, a, f, p, q);
    }
}

/// What holds at the start and is kept by the steps of the list holds at the end.
pub proof fn lemma_fold_keeps_listed<A, X>(
    xs: Seq<X>,
    a: A,
    f: spec_fn(A, X) -> Result<A, ErrorView>,
    p: spec_fn(A) -> bool,
)
    requires
        p(a),
        forall|b: A, i: int|
            0 <= i < xs.len() && p(b) && (#[trigger] f(b, xs[i])) is Ok ==> p(f(b, xs[i])->Ok_0),
    ensures
        fold_steps(xs, a, f) is Ok ==> p(fold_steps(xs, a, f)->Ok_0),
    decreases xs.len(),
{
    if xs.len() > 0 {
        let d = xs.drop_last();
        assert forall|b: A, i: int|
            0 <= i < d.len() && p(b) && (#[trigger] f(b, d[i])) is Ok implies p(f(b, d[i])->Ok_0) by {
            assert(d[i] == xs[i]);
            assert(f(b, xs[i]) is Ok);
        }
        lemma_fold_keeps_listed(d, a, f, p);
        if fold_steps(xs, a, f) is Ok {
            let b = fold_steps(d, a, f)->Ok_0;
            assert(xs.last() == xs[xs.len() - 1]);
            assert(f(b, xs[xs.len() - 1]) is Ok);
        }
    }
}

/// What stays while shared items are published: the state is sound and finite, and the marks of
/// references, the structures and the branches are there as they were.
#[verifier::opaque]
pub open spec fn carried(s: State, t: State) -> bool {
    &&& sound(t)
    &&& t.dom().finite()
    &&& forall|k: Seq<char>| k.len() > 0 && k[0] == 'i' ==> #[trigger] same_at(s, t, k)
    &&& forall|i: Seq<char>| is_part(i) ==> same_at(s, t, #[trigger] k_struct(i))
    &&& forall|i: Seq<char>, b: Seq<char>| (#[trigger] branch_at(s, i, b)) is Some ==> branch_at(t, i, b)
        is Some
}

/// A place in a branch: an item of a configuration.
pub struct Place {
    pub id: Seq<char>,
    pub branch: Seq<char>,
    pub group: Seq<char>,
    pub key: Seq<char>,
}

/// What holds while shared items are published: all is carried, and, once `reached`, the value is in its
/// place.
pub open spec fn following(s: State, t: State, at: Place, value: ValueView, reached: bool) -> bool {
    carried(s, t) && (reached ==> holds_value(t, at.id, at.branch, at.group, at.key, value))
}

/// The extension of a branch by a version touches no marks and no structures.
pub proof fn lemma_cascade_elsewhere(
    a: Progress,
    id: Seq<char>,
    branch: Seq<char>,
    group: Seq<char>,
    key: Seq<char>,
    value: ValueView,
    comment: Seq<char>,
    request_id: Seq<char>,
    ts: i64,
)
    requires
        is_part(id),
        is_part(branch),
        cascade_branch(a, id, branch, group, key, value, comment, request_id, ts) is Ok,
    ensures
        ({
            let t = cascade_branch(a, id, branch, group, key, value, comment, request_id, ts)->Ok_0.0;
            &&& forall|k: Seq<char>| k.len() > 0 && k[0] == 'i' ==> #[trigger] same_at(a.0, t, k)
            &&& forall|i: Seq<char>| is_part(i) ==> same_at(a.0, t, #[trigger] k_struct(i))
            &&& a.0.dom().finite() ==> t.dom().finite()
        }),
{
    let t = cascade_branch(a, id, branch, group, key, value, comment, request_id, ts)->Ok_0.0;
    let no = (branch_at(a.0, id, branch)->0.active_version + 1) as u64;
    reveal_strlit("p/");
    assert(K_PROJECT@[0] == 'p');
    assert(k_branch_state(id, branch)[0] == 'p');
    assert(k_version(id, branch, no)[0] == 'p');
    assert(k_snapshot(id, branch, no)[0] == 'p');
    assert(k_diff(id, branch, no)[0] == 'p');
    lemma_branch_keys(id, branch, no);
    assert forall|i: Seq<char>| is_part(i) implies same_at(a.0, t, #[trigger] k_struct(i)) by {
        lemma_split_single(i, '/');
        lemma_project_parts(i);
        lemma_struct_parts(i);
        assert(parts(k_struct(i)).len() == 3);
        assert(parts(k_branch_state(id, branch)).len() == 5);
        assert(parts(k_version(id, branch, no)).len() == 6);
        assert(parts(k_snapshot(id, branch, no)).len() == 7);
        assert(parts(k_diff(id, branch, no)).len() == 7);
    }
}

/// What one branch that follows a shared item does: it has the item then, and no other place changes.
pub proof fn lemma_one_follows(
    s: State,
    a: Progress,
    id: Seq<char>,
    branch: Seq<char>,
    group: Seq<char>,
    key: Seq<char>,
    value: ValueView,
    comment: Seq<char>,
    request_id: Seq<char>,
    ts: i64,
    at: Place,
    wanted: ValueView,
)
    requires
        carried(s, a.0),
        cascade_branch(a, id, branch, group, key, value, comment, request_id, ts) is Ok,
    ensures
        ({
            let t = cascade_branch(a, id, branch, group, key, value, comment, request_id, ts)->Ok_0.0;
            &&& carried(s, t)
            &&& holds_value(t, id, branch, group, key, value)
            &&& holds_value(a.0, at.id, at.branch, at.group, at.key, wanted) && (wanted == value || !(
            at.id == id && at.group == group && at.key == key)) ==> holds_value(
                t,
                at.id,
                at.branch,
                at.group,
                at.key,
                wanted,
            )
        }),
{
    reveal(carried);
    let t = cascade_branch(a, id, branch, group, key, value, comment, request_id, ts)->Ok_0.0;
    lemma_cascade_branch(a, id, branch, group, key, value, comment, request_id, ts);
    lemma_branch_names(a.0, id, branch);
    lemma_cascade_elsewhere(a, id, branch, group, key, value, comment, request_id, ts);
    let before = branch_at(a.0, id, branch)->0;
    let after = branch_at(t, id, branch)->0;
    let old = active_content(a.0, id, branch, before.active_version)->Ok_0;
    let new = put_item(old, group, key, value);
    let m = snapshot(t, id, branch, after.active_version)->Ok_0;
    assert(item_of(new, group, key) == Some(value));
    lemma_item_agrees(m, new, group, key, value);
    if holds_value(a.0, at.id, at.branch, at.group, at.key, wanted) && (wanted == value || !(at.id
        == id && at.group == group && at.key == key)) {
        lemma_branch_names(a.0, at.id, at.branch);
        if at.id == id && at.branch == branch {
            assert(item_of(new, at.group, at.key) matches Some(x) && value_eq(x, wanted));
            lemma_item_agrees(m, new, at.group, at.key, wanted);
        } else {
            assert(same_at(a.0, t, k_branch_state(at.id, at.branch)));
            let v = branch_at(a.0, at.id, at.branch)->0.active_version;
            assert forall|n: u64| 1 <= n <= v implies #[trigger] same_version(
                a.0,
                t,
                at.id,
                at.branch,
                n,
            ) by {}
            lemma_snapshot_same(a.0, t, at.id, at.branch, v);
        }
    }
    assert forall|k: Seq<char>| k.len() > 0 && k[0] == 'i' implies #[trigger] same_at(s, t, k) by {
        assert(same_at(s, a.0, k));
        assert(same_at(a.0, t, k));
    }
    assert forall|i: Seq<char>| is_part(i) implies same_at(s, t, #[trigger] k_struct(i)) by {
        assert(same_at(s, a.0, k_struct(i)));
        assert(same_at(a.0, t, k_struct(i)));
    }
    assert forall|i: Seq<char>, b: Seq<char>| (#[trigger] branch_at(s, i, b)) is Some implies branch_at(
        t,
        i,
        b,
    ) is Some by {
        assert(branch_at(a.0, i, b) is Some);
        lemma_branch_names(a.0, i, b);
        assert(keeps_branch(a.0, t, i, b));
    }
}

/// Following a reference to another place, or with the same value, keeps what holds.
pub proof fn lemma_cascade_keeps(
    s: State,
    a: Progress,
    at: Place,
    wanted: ValueView,
    reached: bool,
    id: Seq<char>,
    group: Seq<char>,
    key: Seq<char>,
    value: ValueView,
    comment: Seq<char>,
    request_id: Seq<char>,
    ts: i64,
)
    requires
        following(s, a.0, at, wanted, reached),
        reached ==> wanted == value || !(at.id == id && at.group == group && at.key == key),
    ensures
        cascade(a, id, group, key, value, comment, request_id, ts) matches Ok(b) ==> following(
            s,
            b.0,
            at,
            wanted,
            reached,
        ),
{
    let f = |p: Progress, b: Seq<char>|
        cascade_branch(p, id, b, group, key, value, comment, request_id, ts);
    let p = |p: Progress| following(s, p.0, at, wanted, reached);
    assert forall|x: Progress, b: Seq<char>| p(x) && (#[trigger] f(x, b)) is Ok implies p(
        f(x, b)->Ok_0,
    ) by {
        lemma_one_follows(s, x, id, b, group, key, value, comment, request_id, ts, at, wanted);
    }
    lemma_fold_keeps(branches(a.0, id), a, f, p);
}

/// Following a reference to the place brings the value there.
proof fn lemma_cascade_reaches(
    s: State,
    a: Progress,
    at: Place,
    value: ValueView,
    comment: Seq<char>,
    request_id: Seq<char>,
    ts: i64,
)
    requires
        following(s, a.0, at, value, false),
        at.branch.len() > 0,
        branch_at(s, at.id, at.branch) is Some,
        cascade(a, at.id, at.group, at.key, value, comment, request_id, ts) is Ok,
    ensures
        following(
            s,
            cascade(a, at.id, at.group, at.key, value, comment, request_id, ts)->Ok_0.0,
            at,
            value,
            true,
        ),
{
    let f = |p: Progress, b: Seq<char>|
        cascade_branch(p, at.id, b, at.group, at.key, value, comment, request_id, ts);
    let p = |p: Progress| following(s, p.0, at, value, false);
    let q = |p: Progress| following(s, p.0, at, value, true);
    let list = branches(a.0, at.id);
    assert(list.contains(at.branch)) by {
        reveal(carried);
        lemma_branch_names(a.0, at.id, at.branch);
        lemma_branches_listed(a.0, at.id);
        lemma_has_branch(a.0, at.id, at.branch);
    }
    let n = choose|n: int| 0 <= n < list.len() && list[n] == at.branch;
    assert forall|x: Progress, i: int|
        0 <= i < n && p(x) && (#[trigger] f(x, list[i])) is Ok implies p(f(x, list[i])->Ok_0) by {
        lemma_one_follows(
            s,
            x,
            at.id,
            list[i],
            at.group,
            at.key,
            value,
            comment,
            request_id,
            ts,
            at,
            value,
        );
    }
    assert forall|x: Progress| p(x) && (#[trigger] f(x, list[n])) is Ok implies q(f(x, list[n])->Ok_0) by {
        lemma_one_follows(
            s,
            x,
            at.id,
            list[n],
            at.group,
            at.key,
            value,
            comment,
            request_id,
            ts,
            at,
            value,
        );
    }
    assert forall|x: Progress, i: int|
        n < i < list.len() && q(x) && (#[trigger] f(x, list[i])) is Ok implies q(f(x, list[i])->Ok_0) by {
        lemma_one_follows(
            s,
            x,
            at.id,
            list[i],
            at.group,
            at.key,
            value,
            comment,
            request_id,
            ts,
            at,
            value,
        );
    }
    lemma_fold_turns(list, n, a, f, p, q);
}

/// Whether the mark leads the shared item to an item of a project: it refers to the item itself, or to
/// its group.
pub open spec fn leads(
    mark: Seq<char>,
    item: SharedItemView,
    id: Seq<char>,
    group: Seq<char>,
    key: Seq<char>,
) -> bool {
    ||| k_idx_ref(item.group, item.key).is_prefix_of(mark) && target(
        mark,
        k_idx_ref(item.group, item.key),
        3,
    ) == Some(seq![id, group, key])
    ||| k_idx_refg(item.group).is_prefix_of(mark) && key == item.key && target(
        mark,
        k_idx_refg(item.group),
        2,
    ) == Some(seq![id, group])
}

/// Whether publishing the shared item may change an item of a project.
pub open spec fn is_led(
    s: State,
    item: SharedItemView,
    id: Seq<char>,
    group: Seq<char>,
    key: Seq<char>,
) -> bool {
    exists|k: Seq<char>| s.contains_key(k) && #[trigger] leads(k, item, id, group, key)
}

/// Whether an item of a project refers to the shared item: alone, or because its group refers to the
/// shared group and the structure has an item with the key.
pub open spec fn refers(
    s: State,
    item: SharedItemView,
    id: Seq<char>,
    group: Seq<char>,
    key: Seq<char>,
) -> bool {
    ||| s.contains_key(k_ref_index(item.group, item.key, id, group, key))
    ||| s.contains_key(k_group_ref_index(item.group, id, group)) && key == item.key && (read::<
        Structure,
    >(s, k_struct(id)) matches Ok(Some(x)) && has_item(x.groups, group, key))
}

/// A row of references that does not lead to the place, or brings the same value, keeps what holds.
proof fn lemma_row_keeps(
    s: State,
    a: Progress,
    at: Place,
    wanted: ValueView,
    reached: bool,
    row: (Seq<char>, EntryView),
    item: SharedItemView,
    comment: Seq<char>,
    request_id: Seq<char>,
    ts: i64,
)
    requires
        following(s, a.0, at, wanted, reached),
        reached ==> wanted == item.value || !leads(row.0, item, at.id, at.group, at.key),
    ensures
        k_idx_ref(item.group, item.key).is_prefix_of(row.0) ==> (cascade_item_row(
            a,
            row,
            item,
            comment,
            request_id,
            ts,
        ) matches Ok(b) ==> following(s, b.0, at, wanted, reached)),
        k_idx_refg(item.group).is_prefix_of(row.0) ==> (cascade_group_row(
            a,
            row,
            item,
            comment,
            request_id,
            ts,
        ) matches Ok(b) ==> following(s, b.0, at, wanted, reached)),
{
    if k_idx_ref(item.group, item.key).is_prefix_of(row.0) {
        match target(row.0, k_idx_ref(item.group, item.key), 3) {
            Some(q) => {
                if q[0] == at.id && q[1] == at.group && q[2] == at.key {
                    assert(q =~= seq![at.id, at.group, at.key]);
                }
                lemma_cascade_keeps(
                    s,
                    a,
                    at,
                    wanted,
                    reached,
                    q[0],
                    q[1],
                    q[2],
                    item.value,
                    comment,
                    request_id,
                    ts,
                );
            },
            None => {},
        }
    }
    if k_idx_refg(item.group).is_prefix_of(row.0) {
        match target(row.0, k_idx_refg(item.group), 2) {
            Some(q) => {
                if q[0] == at.id && q[1] == at.group && item.key == at.key {
                    assert(q =~= seq![at.id, at.group]);
                }
                lemma_cascade_keeps(
                    s,
                    a,
                    at,
                    wanted,
                    reached,
                    q[0],
                    q[1],
                    item.key,
                    item.value,
                    comment,
                    request_id,
                    ts,
                );
            },
            None => {},
        }
    }
}

/// The rows under an index are the marks that were there at the start.
pub proof fn lemma_index_rows(s: State, t: State, prefix: Seq<char>)
    requires
        carried(s, t),
        prefix.len() > 0,
        prefix[0] == 'i',
    ensures
        forall|i: int|
            0 <= i < scan(t, prefix).len() ==> s.contains_key((#[trigger] scan(t, prefix)[i]).0)
                && prefix.is_prefix_of(scan(t, prefix)[i].0),
        forall|k: Seq<char>| #[trigger] s.contains_key(k) && prefix.is_prefix_of(k) ==> has_row(
            scan(t, prefix),
            k,
        ),
{
    reveal(carried);
    let m = under(t, prefix);
    assert(m.dom().subset_of(t.dom()));
    vstd::set_lib::lemma_set_subset_finite(t.dom(), m.dom());
    lemma_listing_exists(m);
    let rows = scan(t, prefix);
    assert forall|i: int| 0 <= i < rows.len() implies s.contains_key((#[trigger] rows[i]).0)
        && prefix.is_prefix_of(rows[i].0) by {
        let k = rows[i].0;
        assert(m.contains_key(k));
        assert(k[0] == prefix[0]);
        assert(same_at(s, t, k));
    }
    assert forall|k: Seq<char>| #[trigger] s.contains_key(k) && prefix.is_prefix_of(k) implies has_row(
        rows,
        k,
    ) by {
        assert(k[0] == prefix[0]);
        assert(same_at(s, t, k));
        assert(m.contains_key(k));
    }
}

/// The keys of the indexes begin with the same letter.
pub proof fn lemma_index_letters(item: SharedItemView)
    ensures
        k_idx_ref(item.group, item.key).len() > 0 && k_idx_ref(item.group, item.key)[0] == 'i',
        k_idx_refg(item.group).len() > 0 && k_idx_refg(item.group)[0] == 'i',
{
    reveal_strlit("idx/ref/");
    reveal_strlit("idx/refg/");
    assert(K_IDX_REF@[0] == 'i');
    assert(K_IDX_REFG@[0] == 'i');
}

/// The state with a shared item in the place of its draft.
pub open spec fn item_put(s: State, item: SharedItemView, e: EntryView) -> State {
    s.insert(k_shared(item.group, item.key), e).remove(k_shared_draft(item.group, item.key))
}

/// Putting a shared item in the place of its draft keeps what holds.
pub proof fn lemma_put_keeps(
    s: State,
    a: State,
    at: Place,
    wanted: ValueView,
    reached: bool,
    item: SharedItemView,
    e: EntryView,
)
    requires
        following(s, a, at, wanted, reached),
        e is Shared,
    ensures
        following(s, item_put(a, item, e), at, wanted, reached),
{
    reveal(carried);
    let t = item_put(a, item, e);
    lemma_shared_put(a, t, item, e);
    reveal_strlit("sh/");
    reveal_strlit("sh-draft/");
    reveal_strlit("p/");
    assert(k_shared(item.group, item.key)[0] == 's');
    assert(k_shared_draft(item.group, item.key)[0] == 's');
    assert forall|k: Seq<char>| k.len() > 0 && k[0] == 'i' implies #[trigger] same_at(s, t, k) by {
        assert(same_at(s, a, k));
    }
    assert forall|i: Seq<char>| is_part(i) implies same_at(s, t, #[trigger] k_struct(i)) by {
        assert(same_at(s, a, k_struct(i)));
        assert(k_struct(i)[0] == 'p');
    }
    assert forall|i: Seq<char>, b: Seq<char>| (#[trigger] branch_at(s, i, b)) is Some implies branch_at(
        t,
        i,
        b,
    ) is Some by {
        assert(branch_at(a, i, b) is Some);
        lemma_branch_names(a, i, b);
        assert(same_at(a, t, k_branch_state(i, b)));
    }
    if reached {
        lemma_branch_names(a, at.id, at.branch);
        assert(same_at(a, t, k_branch_state(at.id, at.branch)));
        let v = branch_at(a, at.id, at.branch)->0.active_version;
        assert forall|n: u64| 1 <= n <= v implies #[trigger] same_version(a, t, at.id, at.branch, n) by {}
        lemma_snapshot_same(a, t, at.id, at.branch, v);
    }
}

/// Publishing a shared item that does not lead to the place, or has the same value, keeps what holds.
pub proof fn lemma_step_keeps(
    s: State,
    a: Progress,
    at: Place,
    wanted: ValueView,
    reached: bool,
    item: SharedItemView,
    comment: Seq<char>,
    request_id: Seq<char>,
    ts: i64,
)
    requires
        following(s, a.0, at, wanted, reached),
        reached ==> wanted == item.value || !is_led(s, item, at.id, at.group, at.key),
        shared_step(a, item, comment, request_id, ts) is Ok,
    ensures
        following(s, shared_step(a, item, comment, request_id, ts)->Ok_0.0, at, wanted, reached),
{
    let e = published(a.0, item);
    lemma_put_keeps(s, a.0, at, wanted, reached, item, e);
    let start: Progress = (item_put(a.0, item, e), a.1);
    let f = |p: Progress, row: (Seq<char>, EntryView)|
        cascade_item_row(p, row, item, comment, request_id, ts);
    let g = |p: Progress, row: (Seq<char>, EntryView)|
        cascade_group_row(p, row, item, comment, request_id, ts);
    let p = |p: Progress| following(s, p.0, at, wanted, reached);
    lemma_index_letters(item);
    let rows = scan(start.0, k_idx_ref(item.group, item.key));
    lemma_index_rows(s, start.0, k_idx_ref(item.group, item.key));
    assert forall|x: Progress, i: int|
        0 <= i < rows.len() && p(x) && (#[trigger] f(x, rows[i])) is Ok implies p(f(x, rows[i])->Ok_0) by {
        lemma_row_keeps(s, x, at, wanted, reached, rows[i], item, comment, request_id, ts);
    }
    lemma_fold_keeps_listed(rows, start, f, p);
    let b = fold_steps(rows, start, f)->Ok_0;
    assert(p(b));
    let more = scan(b.0, k_idx_refg(item.group));
    lemma_index_rows(s, b.0, k_idx_refg(item.group));
    assert forall|x: Progress, i: int|
        0 <= i < more.len() && p(x) && (#[trigger] g(x, more[i])) is Ok implies p(g(x, more[i])->Ok_0) by {
        lemma_row_keeps(s, x, at, wanted, reached, more[i], item, comment, request_id, ts);
    }
    lemma_fold_keeps_listed(more, b, g, p);
}

/// The entry of a shared item that is published.
pub open spec fn published(s: State, item: SharedItemView) -> EntryView {
    let version = next_number(
        match read::<SharedItem>(s, k_shared(item.group, item.key))->Ok_0 {
            Some(p) => p.version,
            None => 0,
        },
    )->Ok_0;
    EntryView::Shared(SharedItemView { version, ..item })
}

/// Publishing a shared item brings its value to the places that refer to it.
proof fn lemma_step_reaches(
    s: State,
    a: Progress,
    at: Place,
    item: SharedItemView,
    comment: Seq<char>,
    request_id: Seq<char>,
    ts: i64,
)
    requires
        following(s, a.0, at, item.value, false),
        is_part(at.id) && is_part(at.group) && is_part(at.key),
        at.branch.len() > 0,
        branch_at(s, at.id, at.branch) is Some,
        refers(s, item, at.id, at.group, at.key),
        shared_step(a, item, comment, request_id, ts) is Ok,
    ensures
        following(s, shared_step(a, item, comment, request_id, ts)->Ok_0.0, at, item.value, true),
{
    let e = published(a.0, item);
    lemma_put_keeps(s, a.0, at, item.value, false, item, e);
    let start: Progress = (item_put(a.0, item, e), a.1);
    let f = |p: Progress, row: (Seq<char>, EntryView)|
        cascade_item_row(p, row, item, comment, request_id, ts);
    let g = |p: Progress, row: (Seq<char>, EntryView)|
        cascade_group_row(p, row, item, comment, request_id, ts);
    let p = |p: Progress| following(s, p.0, at, item.value, false);
    let q = |p: Progress| following(s, p.0, at, item.value, true);
    lemma_index_letters(item);
    let rows = scan(start.0, k_idx_ref(item.group, item.key));
    lemma_index_rows(s, start.0, k_idx_ref(item.group, item.key));
    let b = fold_steps(rows, start, f)->Ok_0;
    let more = scan(b.0, k_idx_refg(item.group));
    let alone = k_ref_index(item.group, item.key, at.id, at.group, at.key);
    assert forall|x: Progress, i: int|
        0 <= i < rows.len() && p(x) && (#[trigger] f(x, rows[i])) is Ok implies p(f(x, rows[i])->Ok_0) by {
        lemma_row_keeps(s, x, at, item.value, false, rows[i], item, comment, request_id, ts);
    }
    assert forall|x: Progress, i: int|
        0 <= i < rows.len() && q(x) && (#[trigger] f(x, rows[i])) is Ok implies q(f(x, rows[i])->Ok_0) by {
        lemma_row_keeps(s, x, at, item.value, true, rows[i], item, comment, request_id, ts);
    }
    lemma_fold_keeps_listed(rows, start, f, p);
    assert(p(b));
    lemma_index_rows(s, b.0, k_idx_refg(item.group));
    assert forall|x: Progress, i: int|
        0 <= i < more.len() && p(x) && (#[trigger] g(x, more[i])) is Ok implies p(g(x, more[i])->Ok_0) by {
        lemma_row_keeps(s, x, at, item.value, false, more[i], item, comment, request_id, ts);
    }
    assert forall|x: Progress, i: int|
        0 <= i < more.len() && q(x) && (#[trigger] g(x, more[i])) is Ok implies q(g(x, more[i])->Ok_0) by {
        lemma_row_keeps(s, x, at, item.value, true, more[i], item, comment, request_id, ts);
    }
    if s.contains_key(alone) {
        lemma_mark_target(item.group, item.key, at.id, at.group, at.key);
        assert(has_row(rows, alone));
        let n = choose|n: int| 0 <= n < rows.len() && #[trigger] rows[n].0 == alone;
        assert forall|x: Progress| p(x) && (#[trigger] f(x, rows[n])) is Ok implies q(
            f(x, rows[n])->Ok_0,
        ) by {
            lemma_cascade_reaches(s, x, at, item.value, comment, request_id, ts);
        }
        lemma_fold_turns(rows, n, start, f, p, q);
        assert(q(b));
        lemma_fold_keeps_listed(more, b, g, q);
    } else {
        let mark = k_group_ref_index(item.group, at.id, at.group);
        lemma_group_mark_target(item.group, at.id, at.group);
        assert(has_row(more, mark));
        let n = choose|n: int| 0 <= n < more.len() && #[trigger] more[n].0 == mark;
        assert forall|x: Progress| p(x) && (#[trigger] g(x, more[n])) is Ok implies q(
            g(x, more[n])->Ok_0,
        ) by {
            assert(same_at(s, x.0, k_struct(at.id))) by {
                reveal(carried);
            }
            assert(read::<Structure>(x.0, k_struct(at.id)) == read::<Structure>(s, k_struct(at.id)));
            lemma_cascade_reaches(s, x, at, item.value, comment, request_id, ts);
        }
        lemma_fold_turns(more, n, b, g, p, q);
    }
}

/// Where a reference leads is read from its mark.
proof fn lemma_mark_target(
    shared_group: Seq<char>,
    shared_key: Seq<char>,
    id: Seq<char>,
    group: Seq<char>,
    key: Seq<char>,
)
    requires
        is_part(id) && is_part(group) && is_part(key),
    ensures
        target(
            k_ref_index(shared_group, shared_key, id, group, key),
            k_idx_ref(shared_group, shared_key),
            3,
        ) == Some(seq![id, group, key]),
        k_idx_ref(shared_group, shared_key).is_prefix_of(
            k_ref_index(shared_group, shared_key, id, group, key),
        ),
{
    reveal_strlit("/");
    assert("/"@ =~= seq!['/']);
    let pre = k_idx_ref(shared_group, shared_key);
    let k = k_ref_index(shared_group, shared_key, id, group, key);
    let rest = id + "/"@ + group + "/"@ + key;
    assert(k =~= pre + ("/"@ + rest));
    lemma_prefix_of_sum(pre, "/"@ + rest);
    assert(k.skip((pre.len() + 1) as int) =~= rest);
    lemma_split_single(id, '/');
    lemma_split_single(group, '/');
    lemma_split_single(key, '/');
    lemma_joined_parts(id, "/"@, group);
    lemma_joined_parts(id + "/"@ + group, "/"@, key);
    assert(parts(rest) =~= seq![id, group, key]);
}

/// Where a reference of a group leads is read from its mark.
proof fn lemma_group_mark_target(shared_group: Seq<char>, id: Seq<char>, group: Seq<char>)
    requires
        is_part(id) && is_part(group),
    ensures
        target(k_group_ref_index(shared_group, id, group), k_idx_refg(shared_group), 2) == Some(
            seq![id, group],
        ),
        k_idx_refg(shared_group).is_prefix_of(k_group_ref_index(shared_group, id, group)),
{
    reveal_strlit("/");
    assert("/"@ =~= seq!['/']);
    let pre = k_idx_refg(shared_group);
    let k = k_group_ref_index(shared_group, id, group);
    let rest = id + "/"@ + group;
    assert(k =~= pre + ("/"@ + rest));
    lemma_prefix_of_sum(pre, "/"@ + rest);
    assert(k.skip((pre.len() + 1) as int) =~= rest);
    lemma_split_single(id, '/');
    lemma_split_single(group, '/');
    lemma_joined_parts(id, "/"@, group);
    assert(parts(rest) =~= seq![id, group]);
}

/// Publishing the shared library brings the value of every drafted item to every branch of every project
/// that refers to the item, or to its group: the active version of the branch has it. Where several
/// drafts lead to one place, it is the value of the last.
pub proof fn law_shared_publish_reaches_references(
    s: State,
    n: int,
    comment: Seq<char>,
    request_id: Seq<char>,
    ts: i64,
    id: Seq<char>,
    group: Seq<char>,
    key: Seq<char>,
    branch: Seq<char>,
)
    requires
        s.dom().finite(),
        sound(s),
        shared_publish(s, comment, request_id, ts) is Ok,
        0 <= n < shared_under(s, K_SHARED_DRAFT@).len(),
        is_part(id) && is_part(group) && is_part(key),
        refers(s, shared_under(s, K_SHARED_DRAFT@)[n], id, group, key),
        forall|j: int|
            n < j < shared_under(s, K_SHARED_DRAFT@).len() ==> !is_led(
                s,
                #[trigger] shared_under(s, K_SHARED_DRAFT@)[j],
                id,
                group,
                key,
            ),
        branch.len() > 0,
        branch_at(s, id, branch) is Some,
    ensures
        holds_value(
            shared_publish(s, comment, request_id, ts)->Ok_0.0,
            id,
            branch,
            group,
            key,
            shared_under(s, K_SHARED_DRAFT@)[n].value,
        ),
{
    reveal(shared_publish);
    let list = shared_under(s, K_SHARED_DRAFT@);
    let item = list[n];
    let at = Place { id, branch, group, key };
    let start: Progress = (s, Seq::empty());
    let f = |a: Progress, x: SharedItemView| shared_step(a, x, comment, request_id, ts);
    let p = |a: Progress| following(s, a.0, at, item.value, false);
    let q = |a: Progress| following(s, a.0, at, item.value, true);
    assert(p(start)) by {
        reveal(carried);
    }
    assert forall|x: Progress, i: int| 0 <= i < n && p(x) && (#[trigger] f(x, list[i])) is Ok implies p(
        f(x, list[i])->Ok_0,
    ) by {
        lemma_step_keeps(s, x, at, item.value, false, list[i], comment, request_id, ts);
    }
    assert forall|x: Progress| p(x) && (#[trigger] f(x, list[n])) is Ok implies q(f(x, list[n])->Ok_0) by {
        lemma_step_reaches(s, x, at, item, comment, request_id, ts);
    }
    assert forall|x: Progress, i: int|
        n < i < list.len() && q(x) && (#[trigger] f(x, list[i])) is Ok implies q(f(x, list[i])->Ok_0) by {
        lemma_step_keeps(s, x, at, item.value, true, list[i], comment, request_id, ts);
    }
    lemma_fold_turns(list, n, start, f, p, q);
}

/// Putting a shared item in the place of its draft changes nothing in the projects.
pub proof fn lemma_shared_put(s: State, t: State, item: SharedItemView, e: EntryView)
    requires
        sound(s),
        s.dom().finite(),
        e is Shared,
        t == item_put(s, item, e),
    ensures
        sound(t),
        t.dom().finite(),
        same_branches(s, t),
{
    lemma_outside_keys(item.group, item.key, item.key, item.key, item.key, 0);
    assert forall|k: Seq<char>| in_project(k) implies #[trigger] same_at(s, t, k) by {}
    lemma_outside(s, t);
    assert forall|k: Seq<char>| #[trigger] t.contains_key(k) implies in_place(k, t[k]) by {
        if k != k_shared(item.group, item.key) {
            assert(s.contains_key(k));
        }
    }
    assert forall|i: Seq<char>| is_part(i) && s.contains_key(#[trigger] k_project(i)) implies t.contains_key(
        k_project(i),
    ) by {
        assert(same_at(s, t, k_project(i)));
    }
    lemma_same_branches(s, t);
}

} // verus!
