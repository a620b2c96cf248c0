//! What an edit makes of a draft, and the lock on drafts.
use vstd::prelude::*;

use crate::command::{CommandView, DraftUpdateItemView};
use crate::error::ErrorView;
use crate::keys::k_branch_state;
use crate::laws::sound::{branch_at, same_at};
use crate::model::BranchStateView;
use crate::publish::{rev_checked, rev_conflict};
use crate::store::State;
use crate::transition::{after_deletes, after_updates, draft_update, step, time_of};
use crate::validator::DraftView;

verus! {

/// Of two who read a draft at the same revision, one can save: the check lets the first through, and after
/// its save refuses the second. Who reads the draft anew can save again.
pub proof fn law_one_save_refuses_the_other(
    s: State,
    id: Seq<char>,
    branch: Seq<char>,
    updates: Seq<DraftUpdateItemView>,
    deletes: Seq<(Seq<char>, Seq<char>)>,
    operator: Seq<char>,
    ts: i64,
    now: i64,
)
    requires
        step(
            s,
            CommandView::DraftUpdate { project: id, branch, updates, deletes, operator, ts },
            now,
        ) is Ok,
    ensures
        ({
            let t = step(
                s,
                CommandView::DraftUpdate { project: id, branch, updates, deletes, operator, ts },
                now,
            )->Ok_0.0;
            let rev = branch_at(s, id, branch)->0.draft_rev;
            let new = branch_at(t, id, branch)->0.draft_rev;
            &&& rev_checked(s, id, branch, Some(rev)) is Ok
            &&& rev_checked(t, id, branch, Some(rev)) == Err::<(), ErrorView>(rev_conflict(new, rev))
            &&& rev_checked(t, id, branch, Some(new)) is Ok
        }),
{
    reveal(draft_update);
}

/// Whether the update at `i` is the last one for the item.
pub open spec fn is_last_for(
    updates: Seq<DraftUpdateItemView>,
    i: int,
    g: Seq<char>,
    k: Seq<char>,
) -> bool {
    &&& 0 <= i < updates.len()
    &&& updates[i].group == g && updates[i].key == k
    &&& forall|j: int|
        i < j < updates.len() ==> (#[trigger] updates[j]).group != g || updates[j].key != k
}

/// Whether one of the updates is for the item.
pub open spec fn is_updated(updates: Seq<DraftUpdateItemView>, g: Seq<char>, k: Seq<char>) -> bool {
    exists|i: int| 0 <= i < updates.len() && (#[trigger] updates[i]).group == g && updates[i].key == k
}

/// Whether a draft has a value for the item.
pub open spec fn is_set(draft: DraftView, g: Seq<char>, k: Seq<char>) -> bool {
    draft.contains_key(g) && draft[g].contains_key(k)
}

proof fn lemma_after_deletes(
    m: DraftView,
    deletes: Seq<(Seq<char>, Seq<char>)>,
    g: Seq<char>,
    k: Seq<char>,
)
    ensures
        ({
            let d = after_deletes(m, deletes);
            &&& deletes.contains((g, k)) ==> !is_set(d, g, k)
            &&& !deletes.contains((g, k)) ==> is_set(d, g, k) == is_set(m, g, k) && (is_set(m, g, k)
                ==> d[g][k] == m[g][k])
        }),
    decreases deletes.len(),
{
    if deletes.len() > 0 {
        let front = deletes.drop_last();
        lemma_after_deletes(m, front, g, k);
        assert(deletes =~= front.push(deletes.last()));
        if front.contains((g, k)) {
            let i = choose|i: int| 0 <= i < front.len() && front[i] == (g, k);
            assert(deletes[i] == (g, k));
        }
        if deletes.contains((g, k)) && deletes.last() != (g, k) {
            let i = choose|i: int| 0 <= i < deletes.len() && deletes[i] == (g, k);
            assert(front[i] == (g, k));
        }
        if deletes.last() == (g, k) {
            assert(deletes[deletes.len() - 1] == (g, k));
        }
    }
}

proof fn lemma_after_updates(
    m: DraftView,
    updates: Seq<DraftUpdateItemView>,
    ts: i64,
    g: Seq<char>,
    k: Seq<char>,
)
    ensures
        ({
            let d = after_updates(m, updates, ts);
            &&& forall|i: int| #[trigger]
                is_last_for(updates, i, g, k) ==> is_set(d, g, k) && d[g][k].value == updates[i].value
                    && d[g][k].updated_at == ts
            &&& !is_updated(updates, g, k) ==> is_set(d, g, k) == is_set(m, g, k) && (is_set(m, g, k)
                ==> d[g][k] == m[g][k])
        }),
    decreases updates.len(),
{
    if updates.len() > 0 {
        let front = updates.drop_last();
        let n = updates.len() - 1;
        lemma_after_updates(m, front, ts, g, k);
        let d = after_updates(m, updates, ts);
        assert forall|i: int| #[trigger] is_last_for(updates, i, g, k) implies is_set(d, g, k)
            && d[g][k].value == updates[i].value && d[g][k].updated_at == ts by {
            if i < n {
                assert(updates[n].group != g || updates[n].key != k);
                assert(is_last_for(front, i, g, k)) by {
                    assert forall|j: int| i < j < front.len() implies (#[trigger] front[j]).group != g
                        || front[j].key != k by {
                        assert(updates[j] == front[j]);
                    }
                }
            }
        }
        if !is_updated(updates, g, k) {
            if is_updated(front, g, k) {
                let i = choose|i: int|
                    0 <= i < front.len() && (#[trigger] front[i]).group == g && front[i].key == k;
                assert(updates[i].group == g && updates[i].key == k);
            }
            assert(updates[n].group != g || updates[n].key != k);
        }
    }
}

/// An edit of a draft sets the items that it updates, each to the last value that it gives, takes away
/// those that it deletes and does not update, and leaves all others as they were. Nothing else changes but
/// the revision of the draft.
pub proof fn law_draft_update_edits_the_draft(
    s: State,
    id: Seq<char>,
    branch: Seq<char>,
    updates: Seq<DraftUpdateItemView>,
    deletes: Seq<(Seq<char>, Seq<char>)>,
    operator: Seq<char>,
    ts: i64,
    now: i64,
    g: Seq<char>,
    k: Seq<char>,
)
    requires
        step(
            s,
            CommandView::DraftUpdate { project: id, branch, updates, deletes, operator, ts },
            now,
        ) is Ok,
    ensures
        ({
            let (t, events) = step(
                s,
                CommandView::DraftUpdate { project: id, branch, updates, deletes, operator, ts },
                now,
            )->Ok_0;
            let before = branch_at(s, id, branch)->0;
            let after = branch_at(t, id, branch)->0;
            let draft = after.value_draft;
            &&& branch_at(s, id, branch) is Some && branch_at(t, id, branch) is Some
            &&& events.len() == 0
            &&& forall|i: int| #[trigger]
                is_last_for(updates, i, g, k) ==> is_set(draft, g, k) && draft[g][k].value
                    == updates[i].value && draft[g][k].updated_at == (if ts > 0 {
                    ts
                } else {
                    now
                })
            &&& deletes.contains((g, k)) && !is_updated(updates, g, k) ==> !is_set(draft, g, k)
            &&& !deletes.contains((g, k)) && !is_updated(updates, g, k) ==> is_set(draft, g, k) == is_set(
                before.value_draft,
                g,
                k,
            ) && (is_set(before.value_draft, g, k) ==> draft[g][k] == before.value_draft[g][k])
            &&& after == (BranchStateView {
                value_draft: draft,
                draft_rev: (before.draft_rev + 1) as u64,
                ..before
            })
            &&& forall|x: Seq<char>| x != k_branch_state(id, branch) ==> #[trigger] same_at(s, t, x)
        }),
{
    reveal(draft_update);
    let before = branch_at(s, id, branch)->0.value_draft;
    lemma_after_deletes(before, deletes, g, k);
    lemma_after_updates(after_deletes(before, deletes), updates, time_of(ts, now), g, k);
}

} // verus!
