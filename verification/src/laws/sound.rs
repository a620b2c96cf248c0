//! In every state that commands lead to, the active version of every branch can be read.
use vstd::prelude::*;

use crate::diff::{apply_all, apply_entry, finite_snap, put_item};
use crate::keys::{
    k_audit, k_branch_state, k_diff, k_project, k_refs_prefix, k_snapshot, k_struct, k_version,
};
use crate::laws::paths::is_part;
use crate::model::{
    BranchState, BranchStateView, ChangeKind, DiffEntryView, EntryView, SnapView, ValueView,
};
use crate::step::{DiffLog, base_of, is_checkpoint, read, read_as, rebuild, snapshot};
use crate::store::State;
use crate::validator::DraftView;

verus! {

/// A draft with finitely many values.
pub open spec fn finite_draft(m: DraftView) -> bool {
    m.dom().finite() && forall|g: Seq<char>| #[trigger] m.contains_key(g) ==> m[g].dom().finite()
}

/// Whether the key is that of the state of a branch with proper names.
pub open spec fn is_branch_key(k: Seq<char>) -> bool {
    exists|id: Seq<char>, branch: Seq<char>|
        is_part(id) && is_part(branch) && k == #[trigger] k_branch_state(id, branch)
}

/// Whether the key is that of a structure.
pub open spec fn is_struct_key(k: Seq<char>) -> bool {
    exists|id: Seq<char>| is_part(id) && k == #[trigger] k_struct(id)
}

/// Whether the key is that of a project.
pub open spec fn is_project_key(k: Seq<char>) -> bool {
    exists|id: Seq<char>| is_part(id) && k == #[trigger] k_project(id)
}

/// Whether the key is that of a reference of a project.
pub open spec fn is_ref_key(k: Seq<char>) -> bool {
    exists|id: Seq<char>| is_part(id) && (#[trigger] k_refs_prefix(id)).is_prefix_of(k)
}

/// Whether the key is that of the record of the version `no` of a branch.
pub open spec fn is_record_key(k: Seq<char>, no: u64) -> bool {
    exists|id: Seq<char>, branch: Seq<char>|
        is_part(id) && is_part(branch) && k == #[trigger] k_version(id, branch, no)
}

/// Whether the entry may stand under the key: entries that lead to others stand only where they belong,
/// those of the audit trail under their own numbers, and contents are finite.
pub open spec fn in_place(k: Seq<char>, e: EntryView) -> bool {
    match e {
        EntryView::Project(_) => is_project_key(k),
        EntryView::Structure(_) => is_struct_key(k),
        EntryView::Branch(st) => is_branch_key(k) && finite_draft(st.value_draft),
        EntryView::Version(r) => is_record_key(k, r.no),
        EntryView::Ref(_) => is_ref_key(k),
        EntryView::Snapshot(m) => finite_snap(m),
        EntryView::Audit(a) => k == k_audit(a.seq),
        _ => true,
    }
}

/// The state of the branch, where the state holds one.
pub open spec fn branch_at(s: State, id: Seq<char>, branch: Seq<char>) -> Option<BranchStateView> {
    match read::<BranchState>(s, k_branch_state(id, branch)) {
        Ok(st) => st,
        Err(_) => None,
    }
}

/// Whether the content of the version can be rebuilt.
pub open spec fn rebuilds(s: State, id: Seq<char>, branch: Seq<char>, v: u64) -> bool {
    rebuild(s, id, branch, base_of(v as int), v as int) matches Ok(Some(_))
}

/// Every entry stands where it belongs.
pub open spec fn all_placed(s: State) -> bool {
    forall|k: Seq<char>| #[trigger] s.contains_key(k) ==> in_place(k, s[k])
}

/// Every branch belongs to a project that is there.
pub open spec fn all_owned(s: State) -> bool {
    forall|id: Seq<char>, branch: Seq<char>|
        is_part(id) && is_part(branch) && (#[trigger] branch_at(s, id, branch)) is Some
            ==> s.contains_key(k_project(id))
}

/// The active version of every branch can be rebuilt.
pub open spec fn all_readable(s: State) -> bool {
    forall|id: Seq<char>, branch: Seq<char>|
        is_part(id) && is_part(branch) && (#[trigger] branch_at(s, id, branch)) is Some && branch_at(
            s,
            id,
            branch,
        )->0.active_version > 0 ==> rebuilds(s, id, branch, branch_at(s, id, branch)->0.active_version)
}

/// No branch has the record of a version after its active one.
pub open spec fn all_numbered(s: State) -> bool {
    forall|id: Seq<char>, branch: Seq<char>, no: u64|
        is_part(id) && is_part(branch) && s.contains_key(#[trigger] k_version(id, branch, no)) ==> (
        branch_at(s, id, branch) matches Some(st) && 1 <= no <= st.active_version)
}

/// What holds of every state that commands lead to.
pub open spec fn sound(s: State) -> bool {
    all_placed(s) && all_owned(s) && all_readable(s) && all_numbered(s)
}

/// The states agree on the key.
pub open spec fn same_at(s: State, t: State, k: Seq<char>) -> bool {
    s.contains_key(k) == t.contains_key(k) && (s.contains_key(k) ==> s[k] == t[k])
}

/// The states agree on the content of the version.
pub open spec fn same_content(s: State, t: State, id: Seq<char>, branch: Seq<char>, no: u64) -> bool {
    same_at(s, t, k_snapshot(id, branch, no)) && same_at(s, t, k_diff(id, branch, no))
}

/// The states agree on the keys of the version.
pub open spec fn same_version(s: State, t: State, id: Seq<char>, branch: Seq<char>, no: u64) -> bool {
    same_at(s, t, k_version(id, branch, no)) && same_content(s, t, id, branch, no)
}

/// Content that is rebuilt from the same content is the same.
pub proof fn lemma_rebuild_content(
    s: State,
    t: State,
    id: Seq<char>,
    branch: Seq<char>,
    start: int,
    w: int,
)
    requires
        0 <= start,
        start <= w <= u64::MAX,
        forall|n: u64| start <= n <= w ==> #[trigger] same_content(s, t, id, branch, n),
    ensures
        rebuild(s, id, branch, start, w) == rebuild(t, id, branch, start, w),
    decreases w - start,
{
    if w <= start {
        assert(same_content(s, t, id, branch, start as u64));
    } else {
        lemma_rebuild_content(s, t, id, branch, start, w - 1);
        assert(same_content(s, t, id, branch, w as u64));
    }
}

/// Content that is rebuilt from the same keys is the same.
pub proof fn lemma_rebuild_same(
    s: State,
    t: State,
    id: Seq<char>,
    branch: Seq<char>,
    start: int,
    w: int,
)
    requires
        0 <= start,
        start <= w <= u64::MAX,
        forall|n: u64| start <= n <= w ==> #[trigger] same_version(s, t, id, branch, n),
    ensures
        rebuild(s, id, branch, start, w) == rebuild(t, id, branch, start, w),
{
    assert forall|n: u64| start <= n <= w implies #[trigger] same_content(s, t, id, branch, n) by {
        assert(same_version(s, t, id, branch, n));
    }
    lemma_rebuild_content(s, t, id, branch, start, w);
}

/// The base of a version is not after it, and the base of what follows a version that is no checkpoint
/// is its own.
pub proof fn lemma_base(v: int)
    requires
        v >= 1,
    ensures
        1 <= base_of(v) <= v,
        is_checkpoint(v) ==> base_of(v) == v,
        !is_checkpoint(v) ==> v >= 2 && base_of(v) < v && base_of(v) == base_of(v - 1),
{
}

/// Content that is read from the same keys is the same.
pub proof fn lemma_snapshot_same(s: State, t: State, id: Seq<char>, branch: Seq<char>, v: u64)
    requires
        forall|n: u64| 1 <= n <= v ==> #[trigger] same_version(s, t, id, branch, n),
    ensures
        snapshot(s, id, branch, v) == snapshot(t, id, branch, v),
{
    if v > 0 {
        lemma_base(v as int);
        lemma_rebuild_same(s, t, id, branch, base_of(v as int), v as int);
        assert(same_version(s, t, id, branch, v));
    }
}

/// Changes keep a configuration finite.
pub proof fn lemma_apply_finite(m: SnapView, d: Seq<DiffEntryView>)
    requires
        finite_snap(m),
    ensures
        finite_snap(apply_all(m, d)),
    decreases d.len(),
{
    if d.len() > 0 {
        lemma_apply_finite(m, d.drop_last());
        let a = apply_all(m, d.drop_last());
        let e = d.last();
        let r = apply_entry(a, e);
        if e.kind == ChangeKind::Upsert && e.new_value is Some {
            lemma_put_finite(a, e.group, e.key, e.new_value->0);
        } else if e.kind == ChangeKind::Delete && a.contains_key(e.group) {
            assert forall|g: Seq<char>| #[trigger] r.contains_key(g) implies r[g].dom().finite() by {
                assert(a.contains_key(g));
            }
            assert(r.dom().finite());
        }
    }
}

pub proof fn lemma_put_finite(m: SnapView, group: Seq<char>, key: Seq<char>, v: ValueView)
    requires
        finite_snap(m),
    ensures
        finite_snap(put_item(m, group, key, v)),
{
    let r = put_item(m, group, key, v);
    assert forall|g: Seq<char>| #[trigger] r.contains_key(g) implies r[g].dom().finite() by {
        if g != group {
            assert(m.contains_key(g));
        }
    }
}

/// Content that is rebuilt is finite.
pub proof fn lemma_rebuild_finite(s: State, id: Seq<char>, branch: Seq<char>, start: int, w: int)
    requires
        all_placed(s),
        rebuild(s, id, branch, start, w) matches Ok(Some(_)),
    ensures
        finite_snap(rebuild(s, id, branch, start, w)->Ok_0->0),
    decreases w - start,
{
    if w <= start {
        let k = k_snapshot(id, branch, start as u64);
        assert(s.contains_key(k));
        assert(in_place(k, s[k]));
    } else {
        lemma_rebuild_finite(s, id, branch, start, w - 1);
        let m = rebuild(s, id, branch, start, w - 1)->Ok_0->0;
        let d = read_as::<DiffLog>(s, k_diff(id, branch, w as u64), "corrupt diff "@)->Ok_0->0;
        lemma_apply_finite(m, d);
    }
}

/// Content that is read is finite.
pub proof fn lemma_snapshot_finite(s: State, id: Seq<char>, branch: Seq<char>, v: u64)
    requires
        all_placed(s),
        snapshot(s, id, branch, v) is Ok,
    ensures
        finite_snap(snapshot(s, id, branch, v)->Ok_0),
{
    let base = base_of(v as int);
    match rebuild(s, id, branch, base, v as int) {
        Ok(Some(m)) => {
            lemma_rebuild_finite(s, id, branch, base, v as int);
        },
        _ => {
            let k = k_snapshot(id, branch, v);
            assert(s.contains_key(k));
            assert(in_place(k, s[k]));
        },
    }
}

} // verus!
