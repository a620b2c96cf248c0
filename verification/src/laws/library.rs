//! The shared library: what a publication makes of its drafts.
use vstd::prelude::*;

use crate::command::CommandView;
use crate::error::ErrorKind;
use crate::keys::{
    K_SHARED, K_SHARED_DRAFT, k_branch_state, k_idx_ref, k_idx_refg, k_shared, k_shared_draft,
    k_struct,
};
use crate::laws::paths::{in_project, lemma_in_project, lemma_outside_keys};
use crate::laws::sound::same_at;
use crate::laws::steps::lemma_fold_keeps;
use crate::model::{BranchState, EntryView, SharedItem, SharedItemView, Structure, ValueView};
use crate::step::{branches, fold_steps, read, shared_under};
use crate::store::{State, scan};
use crate::transition::{
    Progress, cascade, cascade_branch, cascade_group_row, cascade_item_row, has_item,
    shared_publish, shared_step, step, target, time_of,
};

verus! {

/// The states agree outside of the projects.
spec fn same_outside(s: State, t: State) -> bool {
    forall|k: Seq<char>| !in_project(k) ==> #[trigger] same_at(s, t, k)
}

proof fn lemma_cascade_inside(
    a: Progress,
    id: Seq<char>,
    group: Seq<char>,
    key: Seq<char>,
    value: ValueView,
    comment: Seq<char>,
    request_id: Seq<char>,
    ts: i64,
)
    requires
        cascade(a, id, group, key, value, comment, request_id, ts) is Ok,
    ensures
        same_outside(a.0, cascade(a, id, group, key, value, comment, request_id, ts)->Ok_0.0),
{
    let f = |p: Progress, b: Seq<char>|
        cascade_branch(p, id, b, group, key, value, comment, request_id, ts);
    let p = |p: Progress| same_outside(a.0, p.0);
    assert forall|x: Progress, b: Seq<char>| p(x) && (#[trigger] f(x, b)) is Ok implies p(
        f(x, b)->Ok_0,
    ) by {
        let st = read::<BranchState>(x.0, k_branch_state(id, b))->Ok_0->0;
        lemma_in_project(id, b, (st.active_version + 1) as u64);
        assert forall|k: Seq<char>| !in_project(k) implies #[trigger] same_at(a.0, f(x, b)->Ok_0.0, k) by {
            assert(same_at(a.0, x.0, k));
        }
    }
    lemma_fold_keeps(branches(a.0, id), a, f, p);
}

/// What the publication of one item does outside of the projects.
proof fn lemma_shared_step_outside(
    a: Progress,
    item: SharedItemView,
    comment: Seq<char>,
    request_id: Seq<char>,
    ts: i64,
)
    requires
        shared_step(a, item, comment, request_id, ts) is Ok,
    ensures
        ({
            let t = shared_step(a, item, comment, request_id, ts)->Ok_0.0;
            let k0 = k_shared(item.group, item.key);
            let d0 = k_shared_draft(item.group, item.key);
            &&& forall|k: Seq<char>|
                !in_project(k) && k != k0 && k != d0 ==> #[trigger] same_at(a.0, t, k)
            &&& !t.contains_key(d0)
            &&& t.contains_key(k0) && t[k0] == EntryView::Shared(
                SharedItemView { version: (edition(a.0, item.group, item.key) + 1) as u64, ..item },
            )
            &&& edition(a.0, item.group, item.key) < u64::MAX
        }),
{
    let k0 = k_shared(item.group, item.key);
    let d0 = k_shared_draft(item.group, item.key);
    lemma_outside_keys(item.group, item.key, item.key, item.key, item.key, 0);
    reveal_strlit("sh/");
    reveal_strlit("sh-draft/");
    assert(k0[2] == '/' && d0[2] == '-');
    let prev = read::<SharedItem>(a.0, k0)->Ok_0;
    let version = (edition(a.0, item.group, item.key) + 1) as u64;
    let t = a.0.insert(k0, EntryView::Shared(SharedItemView { version, ..item })).remove(d0);
    let start: Progress = (t, a.1);
    let p = |p: Progress| same_outside(t, p.0);
    let f = |p: Progress, row: (Seq<char>, EntryView)|
        cascade_item_row(p, row, item, comment, request_id, ts);
    assert forall|x: Progress, row: (Seq<char>, EntryView)| p(x) && (#[trigger] f(x, row)) is Ok implies p(
        f(x, row)->Ok_0,
    ) by {
        match target(row.0, k_idx_ref(item.group, item.key), 3) {
            Some(q) => {
                lemma_cascade_inside(x, q[0], q[1], q[2], item.value, comment, request_id, ts);
                lemma_outside_chain(t, x.0, f(x, row)->Ok_0.0);
            },
            None => {},
        }
    }
    assert(p(start));
    lemma_fold_keeps(scan(t, k_idx_ref(item.group, item.key)), start, f, p);
    let b = fold_steps(scan(t, k_idx_ref(item.group, item.key)), start, f)->Ok_0;
    let g = |p: Progress, row: (Seq<char>, EntryView)|
        cascade_group_row(p, row, item, comment, request_id, ts);
    assert forall|x: Progress, row: (Seq<char>, EntryView)| p(x) && (#[trigger] g(x, row)) is Ok implies p(
        g(x, row)->Ok_0,
    ) by {
        match target(row.0, k_idx_refg(item.group), 2) {
            Some(q) => {
                let structure = read::<Structure>(x.0, k_struct(q[0]))->Ok_0;
                if structure is Some && has_item(structure->0.groups, q[1], item.key) {
                    lemma_cascade_inside(x, q[0], q[1], item.key, item.value, comment, request_id, ts);
                    lemma_outside_chain(t, x.0, g(x, row)->Ok_0.0);
                }
            },
            None => {},
        }
    }
    assert(p(b));
    lemma_fold_keeps(scan(b.0, k_idx_refg(item.group)), b, g, p);
    let u = shared_step(a, item, comment, request_id, ts)->Ok_0.0;
    assert(same_outside(t, u));
    assert(same_at(t, u, k0) && same_at(t, u, d0));
    assert forall|k: Seq<char>| !in_project(k) && k != k0 && k != d0 implies #[trigger] same_at(a.0, u, k) by {
        assert(same_at(t, u, k));
    }
}

proof fn lemma_outside_chain(s: State, t: State, u: State)
    requires
        same_outside(s, t),
        same_outside(t, u),
    ensures
        same_outside(s, u),
{
    assert forall|k: Seq<char>| !in_project(k) implies #[trigger] same_at(s, u, k) by {
        assert(same_at(s, t, k) && same_at(t, u, k));
    }
}

/// How often a shared item was published.
pub open spec fn edition(s: State, g: Seq<char>, k: Seq<char>) -> u64 {
    if s.contains_key(k_shared(g, k)) {
        match s[k_shared(g, k)] {
            EntryView::Shared(x) => x.version,
            _ => 0,
        }
    } else {
        0
    }
}

/// Whether the items have one name.
pub open spec fn are_namesakes(a: SharedItemView, b: SharedItemView) -> bool {
    k_shared(a.group, a.key) == k_shared(b.group, b.key)
}

proof fn lemma_namesakes(a: SharedItemView, b: SharedItemView)
    ensures
        are_namesakes(a, b) <==> k_shared_draft(a.group, a.key) == k_shared_draft(b.group, b.key),
        k_shared(a.group, a.key) != k_shared_draft(b.group, b.key),
{
    reveal_strlit("sh/");
    reveal_strlit("sh-draft/");
    let x = a.group + "/"@ + a.key;
    let y = b.group + "/"@ + b.key;
    assert(k_shared(a.group, a.key) =~= K_SHARED@ + x);
    assert(k_shared(b.group, b.key) =~= K_SHARED@ + y);
    assert(k_shared_draft(a.group, a.key) =~= K_SHARED_DRAFT@ + x);
    assert(k_shared_draft(b.group, b.key) =~= K_SHARED_DRAFT@ + y);
    assert(k_shared(a.group, a.key)[2] == '/');
    assert(k_shared_draft(b.group, b.key)[2] == '-');
    assert((K_SHARED@ + x).skip(K_SHARED@.len() as int) =~= x);
    assert((K_SHARED@ + y).skip(K_SHARED@.len() as int) =~= y);
    assert((K_SHARED_DRAFT@ + x).skip(K_SHARED_DRAFT@.len() as int) =~= x);
    assert((K_SHARED_DRAFT@ + y).skip(K_SHARED_DRAFT@.len() as int) =~= y);
}

proof fn lemma_published_so_far(
    s: State,
    list: Seq<SharedItemView>,
    n: int,
    comment: Seq<char>,
    request_id: Seq<char>,
    ts: i64,
)
    requires
        0 <= n < list.len(),
        forall|j: int| 0 <= j < list.len() && j != n ==> !are_namesakes(#[trigger] list[j], list[n]),
        fold_steps(
            list,
            (s, Seq::empty()),
            |a: Progress, item: SharedItemView| shared_step(a, item, comment, request_id, ts),
        ) is Ok,
    ensures
        ({
            let t = fold_steps(
                list,
                (s, Seq::empty()),
                |a: Progress, item: SharedItemView| shared_step(a, item, comment, request_id, ts),
            )->Ok_0.0;
            let item = list[n];
            let k0 = k_shared(item.group, item.key);
            &&& t.contains_key(k0) && t[k0] == EntryView::Shared(
                SharedItemView { version: (edition(s, item.group, item.key) + 1) as u64, ..item },
            )
            &&& edition(s, item.group, item.key) < u64::MAX
            &&& !t.contains_key(k_shared_draft(item.group, item.key))
        }),
    decreases list.len(),
{
    let f = |a: Progress, item: SharedItemView| shared_step(a, item, comment, request_id, ts);
    let start: Progress = (s, Seq::empty());
    let front = list.drop_last();
    let last = list.last();
    let a = fold_steps(front, start, f)->Ok_0;
    assert(fold_steps(list, start, f) == f(a, last));
    lemma_shared_step_outside(a, last, comment, request_id, ts);
    let item = list[n];
    lemma_outside_keys(item.group, item.key, item.key, item.key, item.key, 0);
    lemma_namesakes(item, last);
    lemma_namesakes(last, item);
    if n == list.len() - 1 {
        lemma_untouched_so_far(s, front, item, comment, request_id, ts);
    } else {
        assert(front[n] == list[n]);
        assert forall|j: int| 0 <= j < front.len() && j != n implies !are_namesakes(
            #[trigger] front[j],
            front[n],
        ) by {
            assert(front[j] == list[j]);
        }
        lemma_published_so_far(s, front, n, comment, request_id, ts);
        let t = f(a, last)->Ok_0.0;
        assert(!are_namesakes(list[list.len() - 1], list[n]));
        assert(same_at(a.0, t, k_shared(item.group, item.key)));
        assert(same_at(a.0, t, k_shared_draft(item.group, item.key)));
    }
}

proof fn lemma_untouched_so_far(
    s: State,
    list: Seq<SharedItemView>,
    item: SharedItemView,
    comment: Seq<char>,
    request_id: Seq<char>,
    ts: i64,
)
    requires
        forall|j: int| 0 <= j < list.len() ==> !are_namesakes(#[trigger] list[j], item),
        fold_steps(
            list,
            (s, Seq::empty()),
            |a: Progress, item: SharedItemView| shared_step(a, item, comment, request_id, ts),
        ) is Ok,
    ensures
        ({
            let t = fold_steps(
                list,
                (s, Seq::empty()),
                |a: Progress, item: SharedItemView| shared_step(a, item, comment, request_id, ts),
            )->Ok_0.0;
            same_at(s, t, k_shared(item.group, item.key)) && same_at(
                s,
                t,
                k_shared_draft(item.group, item.key),
            )
        }),
    decreases list.len(),
{
    if list.len() > 0 {
        let f = |a: Progress, item: SharedItemView| shared_step(a, item, comment, request_id, ts);
        let start: Progress = (s, Seq::empty());
        let front = list.drop_last();
        let last = list.last();
        let a = fold_steps(front, start, f)->Ok_0;
        assert(fold_steps(list, start, f) == f(a, last));
        assert forall|j: int| 0 <= j < front.len() implies !are_namesakes(#[trigger] front[j], item) by {
            assert(front[j] == list[j]);
        }
        lemma_untouched_so_far(s, front, item, comment, request_id, ts);
        lemma_shared_step_outside(a, last, comment, request_id, ts);
        lemma_outside_keys(item.group, item.key, item.key, item.key, item.key, 0);
        lemma_namesakes(item, last);
        lemma_namesakes(last, item);
        assert(!are_namesakes(list[list.len() - 1], item));
        let t = f(a, last)->Ok_0.0;
        assert(same_at(a.0, t, k_shared(item.group, item.key)));
        assert(same_at(a.0, t, k_shared_draft(item.group, item.key)));
    }
}

/// Publishing the shared library puts every draft, where no other has its name, into the library as it was
/// drafted, as the next edition of the item, and takes the draft away. It needs at least one draft.
pub proof fn law_shared_publish_publishes_the_drafts(
    s: State,
    comment: Seq<char>,
    request_id: Seq<char>,
    operator: Seq<char>,
    ts: i64,
    now: i64,
    n: int,
)
    requires
        step(s, CommandView::SharedPublish { comment, request_id, operator, ts }, now) is Ok,
        0 <= n < shared_under(s, K_SHARED_DRAFT@).len(),
        forall|j: int|
            0 <= j < shared_under(s, K_SHARED_DRAFT@).len() && j != n ==> !are_namesakes(
                #[trigger] shared_under(s, K_SHARED_DRAFT@)[j],
                shared_under(s, K_SHARED_DRAFT@)[n],
            ),
    ensures
        ({
            let t = step(s, CommandView::SharedPublish { comment, request_id, operator, ts }, now)->Ok_0.0;
            let item = shared_under(s, K_SHARED_DRAFT@)[n];
            let k0 = k_shared(item.group, item.key);
            &&& t.contains_key(k0) && (t[k0] matches EntryView::Shared(x) && x.group == item.group && x.key
                == item.key && x.value == item.value && x.ty == item.ty && x.secret == item.secret
                && x.required == item.required && x.description == item.description && x.version
                == edition(s, item.group, item.key) + 1)
            &&& !t.contains_key(k_shared_draft(item.group, item.key))
        }),
{
    reveal(shared_publish);
    lemma_published_so_far(
        s,
        shared_under(s, K_SHARED_DRAFT@),
        n,
        comment,
        request_id,
        time_of(ts, now),
    );
}

/// Publishing the shared library leaves alone what has no draft, and needs at least one draft.
pub proof fn law_shared_publish_needs_drafts(
    s: State,
    comment: Seq<char>,
    request_id: Seq<char>,
    operator: Seq<char>,
    ts: i64,
    now: i64,
    item: SharedItemView,
)
    ensures
        ({
            let r = step(s, CommandView::SharedPublish { comment, request_id, operator, ts }, now);
            let list = shared_under(s, K_SHARED_DRAFT@);
            &&& list.len() == 0 ==> (r matches Err(e) && e.kind == ErrorKind::NoDraft)
            &&& r is Ok && (forall|j: int| 0 <= j < list.len() ==> !are_namesakes(#[trigger] list[j], item))
                ==> same_at(s, r->Ok_0.0, k_shared(item.group, item.key))
        }),
{
    reveal(shared_publish);
    let r = step(s, CommandView::SharedPublish { comment, request_id, operator, ts }, now);
    let list = shared_under(s, K_SHARED_DRAFT@);
    if r is Ok && (forall|j: int| 0 <= j < list.len() ==> !are_namesakes(#[trigger] list[j], item)) {
        lemma_untouched_so_far(s, list, item, comment, request_id, time_of(ts, now));
    }
}

} // verus!
