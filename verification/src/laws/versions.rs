//! A new version can be read as it was published, and leaves those before it as they were.
use vstd::prelude::*;

use crate::diff::{
    apply_all, diff_of, finite_snap, item_of, law_diff_leads_from_old_to_new, same_items,
};
use crate::error::ErrorView;
use crate::keys::{k_branch_state, k_diff, k_project, k_snapshot, k_version};
use crate::laws::paths::{
    is_part, law_state_key_is_no_version_key, law_version_keys_differ, lemma_state_names,
    version_key_of,
};
use crate::laws::sound::{
    branch_at, finite_draft, in_place, is_branch_key, is_record_key, lemma_base,
    lemma_rebuild_finite, lemma_rebuild_same, rebuilds, same_at, same_version, sound,
};
use crate::model::{BranchStateView, EntryView, SnapView, VersionRecordView, value_eq};
use crate::step::{active_content, base_of, is_checkpoint, rebuild, snapshot, with_version};
use crate::store::State;

verus! {

/// The branches of `s` are still there in `t`, at the same version or a later one, and the versions that
/// they had are unchanged.
pub open spec fn keeps(s: State, t: State) -> bool {
    forall|id: Seq<char>, branch: Seq<char>|
        is_part(id) && is_part(branch) && (#[trigger] branch_at(s, id, branch)) is Some ==> keeps_branch(
            s,
            t,
            id,
            branch,
        )
}

pub open spec fn keeps_branch(s: State, t: State, id: Seq<char>, branch: Seq<char>) -> bool {
    &&& branch_at(t, id, branch) is Some
    &&& branch_at(t, id, branch)->0.active_version >= branch_at(s, id, branch)->0.active_version
    &&& forall|n: u64|
        1 <= n <= branch_at(s, id, branch)->0.active_version ==> #[trigger] same_version(
            s,
            t,
            id,
            branch,
            n,
        )
}

pub proof fn lemma_keeps_transitive(s: State, t: State, u: State)
    requires
        keeps(s, t),
        keeps(t, u),
    ensures
        keeps(s, u),
{
    assert forall|id: Seq<char>, branch: Seq<char>|
        is_part(id) && is_part(branch) && (#[trigger] branch_at(s, id, branch))
            is Some implies keeps_branch(s, u, id, branch) by {
        assert(keeps_branch(s, t, id, branch));
        assert(branch_at(t, id, branch) is Some);
        assert(keeps_branch(t, u, id, branch));
        assert forall|n: u64|
            1 <= n <= branch_at(s, id, branch)->0.active_version implies #[trigger] same_version(
            s,
            u,
            id,
            branch,
            n,
        ) by {
            assert(same_version(s, t, id, branch, n));
            assert(same_version(t, u, id, branch, n));
        }
    }
}

/// States that agree on the keys of a branch agree on its versions.
pub proof fn lemma_branch_same(s: State, t: State, id: Seq<char>, branch: Seq<char>)
    requires
        same_at(s, t, k_branch_state(id, branch)),
        forall|n: u64| #[trigger] same_version(s, t, id, branch, n),
    ensures
        branch_at(t, id, branch) == branch_at(s, id, branch),
        forall|v: u64|
            v > 0 ==> #[trigger] rebuilds(t, id, branch, v) == rebuilds(s, id, branch, v),
        keeps_branch(s, t, id, branch) || branch_at(s, id, branch) is None,
{
    assert forall|v: u64| v > 0 implies #[trigger] rebuilds(t, id, branch, v) == rebuilds(
        s,
        id,
        branch,
        v,
    ) by {
        lemma_base(v as int);
        lemma_rebuild_same(s, t, id, branch, base_of(v as int), v as int);
    }
}

/// The state with one more version of a branch.
pub open spec fn extended(
    s: State,
    id: Seq<char>,
    branch: Seq<char>,
    old: SnapView,
    new: SnapView,
    record: VersionRecordView,
    st: BranchStateView,
) -> State {
    with_version(s, id, branch, old, new, record).insert(
        k_branch_state(id, branch),
        EntryView::Branch(st),
    )
}

/// What one more version of a branch changes.
proof fn lemma_extended_keys(
    s: State,
    id: Seq<char>,
    branch: Seq<char>,
    old: SnapView,
    new: SnapView,
    record: VersionRecordView,
    st: BranchStateView,
)
    requires
        is_part(id),
        is_part(branch),
    ensures
        ({
            let t = extended(s, id, branch, old, new, record, st);
            let no = record.no;
            &&& branch_at(t, id, branch) == Some(st)
            &&& forall|k: Seq<char>|
                k != k_branch_state(id, branch) && !version_key_of(id, branch, no, k)
                    ==> #[trigger] same_at(s, t, k)
            &&& forall|k: Seq<char>| #[trigger] s.contains_key(k) ==> t.contains_key(k)
            &&& is_checkpoint(no as int) ==> t.contains_key(k_snapshot(id, branch, no)) && t[k_snapshot(
                id,
                branch,
                no,
            )] == EntryView::Snapshot(new)
            &&& !is_checkpoint(no as int) ==> t.contains_key(k_diff(id, branch, no)) && t[k_diff(
                id,
                branch,
                no,
            )] == EntryView::Diff(diff_of(old, new))
        }),
{
    law_state_key_is_no_version_key(id, branch, id, branch, record.no);
    law_version_keys_differ(
        id,
        branch,
        record.no,
        id,
        branch,
        record.no,
        k_version(id, branch, record.no),
    );
}

/// The states agree on all branches but one, and on the versions of that one up to the active one.
pub proof fn lemma_extended_frame(
    s: State,
    id: Seq<char>,
    branch: Seq<char>,
    old: SnapView,
    new: SnapView,
    record: VersionRecordView,
    st: BranchStateView,
)
    requires
        is_part(id),
        is_part(branch),
    ensures
        ({
            let t = extended(s, id, branch, old, new, record, st);
            &&& forall|i: Seq<char>, b: Seq<char>|
                is_part(i) && is_part(b) && !(i == id && b == branch) ==> same_at(
                    s,
                    t,
                    #[trigger] k_branch_state(i, b),
                )
            &&& forall|i: Seq<char>, b: Seq<char>, n: u64|
                is_part(i) && is_part(b) && !(i == id && b == branch && n == record.no)
                    ==> #[trigger] same_version(s, t, i, b, n)
        }),
{
    let t = extended(s, id, branch, old, new, record, st);
    lemma_extended_keys(s, id, branch, old, new, record, st);
    assert forall|i: Seq<char>, b: Seq<char>|
        is_part(i) && is_part(b) && !(i == id && b == branch) implies same_at(
        s,
        t,
        #[trigger] k_branch_state(i, b),
    ) by {
        law_state_key_is_no_version_key(i, b, id, branch, record.no);
        if k_branch_state(i, b) == k_branch_state(id, branch) {
            lemma_state_names(id, branch, i, b);
        }
    }
    assert forall|i: Seq<char>, b: Seq<char>, n: u64|
        is_part(i) && is_part(b) && !(i == id && b == branch && n == record.no)
            implies #[trigger] same_version(s, t, i, b, n) by {
        law_state_key_is_no_version_key(id, branch, i, b, n);
        assert forall|k: Seq<char>| version_key_of(i, b, n, k) implies #[trigger] same_at(s, t, k) by {
            if version_key_of(id, branch, record.no, k) {
                law_version_keys_differ(id, branch, record.no, i, b, n, k);
            }
        }
        assert(version_key_of(i, b, n, k_version(i, b, n)));
        assert(version_key_of(i, b, n, k_snapshot(i, b, n)));
        assert(version_key_of(i, b, n, k_diff(i, b, n)));
    }
}

/// A new version of a branch: the state stays sound, nothing before it changes, and it reads as it was
/// written.
pub proof fn lemma_extended(
    s: State,
    id: Seq<char>,
    branch: Seq<char>,
    old: SnapView,
    new: SnapView,
    record: VersionRecordView,
    st: BranchStateView,
)
    requires
        sound(s),
        is_part(id),
        is_part(branch),
        branch_at(s, id, branch) is Some,
        record.no == branch_at(s, id, branch)->0.active_version + 1,
        st.active_version == record.no,
        active_content(s, id, branch, branch_at(s, id, branch)->0.active_version) == Ok::<
            SnapView,
            ErrorView,
        >(old),
        finite_snap(new),
        finite_draft(st.value_draft),
    ensures
        sound(extended(s, id, branch, old, new, record, st)),
        keeps(s, extended(s, id, branch, old, new, record, st)),
        branch_at(extended(s, id, branch, old, new, record, st), id, branch) == Some(st),
        snapshot(extended(s, id, branch, old, new, record, st), id, branch, record.no) matches Ok(m)
            && same_items(m, new),
{
    let t = extended(s, id, branch, old, new, record, st);
    let v = branch_at(s, id, branch)->0.active_version;
    let no = record.no;
    lemma_extended_keys(s, id, branch, old, new, record, st);
    lemma_extended_frame(s, id, branch, old, new, record, st);
    lemma_base(no as int);
    let base = base_of(no as int);
    // The new version.
    if is_checkpoint(no as int) {
        assert(rebuild(t, id, branch, base, no as int) == Ok::<Option<SnapView>, ErrorView>(Some(new)));
        lemma_same_items_reflexive(new);
    } else {
        assert(rebuilds(s, id, branch, v));
        assert(rebuild(s, id, branch, base, v as int) == Ok::<Option<SnapView>, ErrorView>(Some(old)));
        assert forall|n: u64| base <= n <= v implies #[trigger] same_version(s, t, id, branch, n) by {}
        lemma_rebuild_same(s, t, id, branch, base, v as int);
        lemma_rebuild_finite(s, id, branch, base, v as int);
        law_diff_leads_from_old_to_new(old, new);
        assert(rebuild(t, id, branch, base, no as int) == Ok::<Option<SnapView>, ErrorView>(
            Some(apply_all(old, diff_of(old, new))),
        ));
    }
    assert(rebuilds(t, id, branch, no));
    // Every entry stands where it belongs.
    assert forall|k: Seq<char>| #[trigger] t.contains_key(k) implies in_place(k, t[k]) by {
        if k == k_branch_state(id, branch) {
            assert(is_branch_key(k));
        } else if version_key_of(id, branch, no, k) {
            if k == k_version(id, branch, no) {
                assert(is_record_key(k, no));
            } else if s.contains_key(k) && t[k] == s[k] {
                assert(in_place(k, s[k]));
            }
        } else {
            assert(same_at(s, t, k));
        }
    }
    // Every branch belongs to a project, and can be read.
    assert forall|i: Seq<char>, b: Seq<char>|
        is_part(i) && is_part(b) && (#[trigger] branch_at(t, i, b)) is Some implies t.contains_key(
        k_project(i),
    ) && (branch_at(t, i, b)->0.active_version > 0 ==> rebuilds(
        t,
        i,
        b,
        branch_at(t, i, b)->0.active_version,
    )) by {
        if i == id && b == branch {
            assert(s.contains_key(k_project(id)));
        } else {
            assert(same_at(s, t, k_branch_state(i, b)));
            assert forall|n: u64| #[trigger] same_version(s, t, i, b, n) by {}
            lemma_branch_same(s, t, i, b);
            assert(branch_at(s, i, b) is Some);
            assert(s.contains_key(k_project(i)));
        }
    }
    assert forall|i: Seq<char>, b: Seq<char>, n: u64|
        is_part(i) && is_part(b) && t.contains_key(#[trigger] k_version(i, b, n)) implies (branch_at(
        t,
        i,
        b,
    ) matches Some(x) && 1 <= n <= x.active_version) by {
        if !(i == id && b == branch && n == no) {
            assert(same_version(s, t, i, b, n));
            assert(s.contains_key(k_version(i, b, n)));
            if !(i == id && b == branch) {
                assert(same_at(s, t, k_branch_state(i, b)));
            }
        }
    }
    // What was there stays.
    assert forall|i: Seq<char>, b: Seq<char>|
        is_part(i) && is_part(b) && (#[trigger] branch_at(s, i, b)) is Some implies keeps_branch(
        s,
        t,
        i,
        b,
    ) by {
        if i == id && b == branch {
        } else {
            assert(same_at(s, t, k_branch_state(i, b)));
            assert forall|n: u64| #[trigger] same_version(s, t, i, b, n) by {}
            lemma_branch_same(s, t, i, b);
        }
    }
}

pub proof fn lemma_same_items_reflexive(m: SnapView)
    ensures
        same_items(m, m),
{
    assert forall|g: Seq<char>, k: Seq<char>|
        match (#[trigger] item_of(m, g, k), item_of(m, g, k)) {
            (Some(x), Some(y)) => value_eq(x, y),
            (None, None) => true,
            _ => false,
        } by {}
}

} // verus!
