//! Renewing the wrapping of secrets: every ciphertext in the store is offered to a function that may
//! give another one in its place.
use vstd::prelude::*;

use crate::dup::{Dup, views};
use crate::error::{Error, ErrorView};
use crate::keys::{K_BRANCH, K_DIFF, K_PROJECT, K_SHARED, K_SHARED_DRAFT, K_SNAP, K_STATE};
use crate::model::{
    BranchState, BranchStateView, ChangeKind, Ciphertext, CiphertextView, DiffEntry, DiffEntryView,
    DraftValue, DraftValueView, Entry, EntryView, SharedItem, SharedItemView, SnapView,
    SnapshotMap, Value, ValueView,
};
use crate::ordmap::{OrdMap, has_row, is_listing, listing};
use crate::state::StateMachine;
use crate::state::publishing::ToValues;
use crate::store::{KeyValuePairs, State, Store, row_views};
use crate::text::{
    after_prefix, contains_text, ends_with, has_prefix, has_suffix, holds,
    lemma_text_less_irreflexive, text_less,
};
use crate::validator::DraftView;

verus! {

/// The value stays: it is no secret, or `f` gives nothing for it.
pub open spec fn kept<F: Fn(&Ciphertext) -> Option<Result<Ciphertext, Error>>>(
    f: F,
    a: ValueView,
    b: ValueView,
) -> bool {
    a == b && match a {
        ValueView::Secret(c) => exists|x: &Ciphertext| x@ == c && #[trigger] call_ensures(f, (x,), None),
        _ => true,
    }
}

/// The value is a secret, and becomes what `f` gives for it.
pub open spec fn renewed<F: Fn(&Ciphertext) -> Option<Result<Ciphertext, Error>>>(
    f: F,
    a: ValueView,
    b: ValueView,
) -> bool {
    match (a, b) {
        (ValueView::Secret(c), ValueView::Secret(d)) => exists|x: &Ciphertext, y: Ciphertext|
            x@ == c && y@ == d && #[trigger] call_ensures(f, (x,), Some(Ok(y))),
        _ => false,
    }
}

/// `f` gives the error for the value.
pub open spec fn refused<F: Fn(&Ciphertext) -> Option<Result<Ciphertext, Error>>>(
    f: F,
    a: ValueView,
    e: ErrorView,
) -> bool {
    match a {
        ValueView::Secret(c) => exists|x: &Ciphertext, y: Error|
            x@ == c && y@ == e && #[trigger] call_ensures(f, (x,), Some(Err(y))),
        _ => false,
    }
}

/// Whether a group holds the value.
pub open spec fn in_group(m: Map<Seq<char>, ValueView>, v: ValueView) -> bool {
    exists|k: Seq<char>| #[trigger] m.contains_key(k) && m[k] == v
}

/// Whether a snapshot holds the value.
pub open spec fn in_snap(m: SnapView, v: ValueView) -> bool {
    exists|g: Seq<char>| #[trigger] m.contains_key(g) && in_group(m[g], v)
}

/// Whether a draft holds the value.
pub open spec fn in_draft(m: DraftView, v: ValueView) -> bool {
    exists|g: Seq<char>| #[trigger] m.contains_key(g) && in_group(group_values(m[g]), v)
}

/// Whether changes bring the value.
pub open spec fn in_changes(d: Seq<DiffEntryView>, v: ValueView) -> bool {
    exists|i: int| 0 <= i < d.len() && offered(#[trigger] d[i]) == Some(v)
}

/// Whether the value is offered for the entry under a key.
pub open spec fn in_entry(key: Seq<char>, e: EntryView, v: ValueView) -> bool {
    if K_SHARED@.is_prefix_of(key) || K_SHARED_DRAFT@.is_prefix_of(key) {
        e matches EntryView::Shared(x) && x.value == v
    } else if ends_with(key, K_SNAP@) {
        e matches EntryView::Snapshot(x) && in_snap(x, v)
    } else if ends_with(key, K_DIFF@) {
        e matches EntryView::Diff(x) && in_changes(x, v)
    } else if is_state_key(key) {
        e matches EntryView::Branch(x) && in_draft(x.value_draft, v)
    } else {
        false
    }
}

/// Whether the value is offered for some entry.
pub open spec fn in_state(s: State, v: ValueView) -> bool {
    exists|k: Seq<char>| #[trigger] s.contains_key(k) && in_entry(k, s[k], v)
}

/// Every value of a group is kept or renewed; `changed` says whether one is renewed.
pub open spec fn group_done<F: Fn(&Ciphertext) -> Option<Result<Ciphertext, Error>>>(
    f: F,
    a: Map<Seq<char>, ValueView>,
    b: Map<Seq<char>, ValueView>,
    changed: bool,
) -> bool {
    &&& a.dom() == b.dom()
    &&& forall|k: Seq<char>| #[trigger]
        a.contains_key(k) ==> kept(f, a[k], b[k]) || (changed && renewed(f, a[k], b[k]))
    &&& changed ==> exists|k: Seq<char>| #[trigger] a.contains_key(k) && renewed(f, a[k], b[k])
}

pub open spec fn snap_done<F: Fn(&Ciphertext) -> Option<Result<Ciphertext, Error>>>(
    f: F,
    a: SnapView,
    b: SnapView,
    changed: bool,
) -> bool {
    &&& a.dom() == b.dom()
    &&& forall|g: Seq<char>| #[trigger]
        a.contains_key(g) ==> group_done(f, a[g], b[g], false) || (changed && group_done(
            f,
            a[g],
            b[g],
            true,
        ))
    &&& changed ==> exists|g: Seq<char>| #[trigger] a.contains_key(g) && group_done(f, a[g], b[g], true)
}

/// The values of the draft of a group.
pub open spec fn group_values(m: Map<Seq<char>, DraftValueView>) -> Map<Seq<char>, ValueView> {
    m.map_values(|d: DraftValueView| d.value)
}

/// The times of the draft of a group.
pub open spec fn group_times(m: Map<Seq<char>, DraftValueView>) -> Map<Seq<char>, i64> {
    m.map_values(|d: DraftValueView| d.updated_at)
}

pub open spec fn draft_group_done<F: Fn(&Ciphertext) -> Option<Result<Ciphertext, Error>>>(
    f: F,
    a: Map<Seq<char>, DraftValueView>,
    b: Map<Seq<char>, DraftValueView>,
    changed: bool,
) -> bool {
    group_done(f, group_values(a), group_values(b), changed) && group_times(a) == group_times(b)
}

pub open spec fn draft_done<F: Fn(&Ciphertext) -> Option<Result<Ciphertext, Error>>>(
    f: F,
    a: DraftView,
    b: DraftView,
    changed: bool,
) -> bool {
    &&& a.dom() == b.dom()
    &&& forall|g: Seq<char>| #[trigger]
        a.contains_key(g) ==> draft_group_done(f, a[g], b[g], false) || (changed
            && draft_group_done(f, a[g], b[g], true))
    &&& changed ==> exists|g: Seq<char>| #[trigger]
        a.contains_key(g) && draft_group_done(f, a[g], b[g], true)
}

/// The entry of a list of changes that is offered: the value of an upsert.
pub open spec fn offered(d: DiffEntryView) -> Option<ValueView> {
    match d.kind {
        ChangeKind::Upsert => d.new_value,
        ChangeKind::Delete => None,
    }
}

pub open spec fn change_kept<F: Fn(&Ciphertext) -> Option<Result<Ciphertext, Error>>>(
    f: F,
    a: DiffEntryView,
    b: DiffEntryView,
) -> bool {
    a == b && (offered(a) matches Some(v) ==> kept(f, v, v))
}

pub open spec fn change_renewed<F: Fn(&Ciphertext) -> Option<Result<Ciphertext, Error>>>(
    f: F,
    a: DiffEntryView,
    b: DiffEntryView,
) -> bool {
    &&& offered(a) is Some
    &&& b.new_value is Some
    &&& renewed(f, offered(a)->0, b.new_value->0)
    &&& b == (DiffEntryView { new_value: b.new_value, ..a })
}

pub open spec fn diff_done<F: Fn(&Ciphertext) -> Option<Result<Ciphertext, Error>>>(
    f: F,
    a: Seq<DiffEntryView>,
    b: Seq<DiffEntryView>,
    changed: bool,
) -> bool {
    &&& a.len() == b.len()
    &&& forall|i: int|
        0 <= i < a.len() ==> change_kept(f, #[trigger] a[i], b[i]) || (changed && change_renewed(
            f,
            a[i],
            b[i],
        ))
    &&& changed ==> exists|i: int| 0 <= i < a.len() && change_renewed(f, #[trigger] a[i], b[i])
}

/// What becomes of an entry: the values in snapshots, in changes, in shared items and in the drafts of
/// branches are offered, each where its key says so.
pub open spec fn entry_done<F: Fn(&Ciphertext) -> Option<Result<Ciphertext, Error>>>(
    f: F,
    key: Seq<char>,
    a: EntryView,
    b: EntryView,
    changed: bool,
) -> bool {
    if K_SHARED@.is_prefix_of(key) || K_SHARED_DRAFT@.is_prefix_of(key) {
        match (a, b) {
            (EntryView::Shared(x), EntryView::Shared(y)) => y == (SharedItemView {
                value: y.value,
                ..x
            }) && if changed {
                renewed(f, x.value, y.value)
            } else {
                kept(f, x.value, y.value)
            },
            _ => a == b && !changed && !(a is Shared),
        }
    } else if ends_with(key, K_SNAP@) {
        match (a, b) {
            (EntryView::Snapshot(x), EntryView::Snapshot(y)) => snap_done(f, x, y, changed),
            _ => a == b && !changed && !(a is Snapshot),
        }
    } else if ends_with(key, K_DIFF@) {
        match (a, b) {
            (EntryView::Diff(x), EntryView::Diff(y)) => diff_done(f, x, y, changed),
            _ => a == b && !changed && !(a is Diff),
        }
    } else if is_state_key(key) {
        match (a, b) {
            (EntryView::Branch(x), EntryView::Branch(y)) => y == (BranchStateView {
                value_draft: y.value_draft,
                ..x
            }) && draft_done(f, x.value_draft, y.value_draft, changed),
            _ => a == b && !changed && !(a is Branch),
        }
    } else {
        a == b && !changed
    }
}

/// Whether the key is that of the state of a branch.
pub open spec fn is_state_key(key: Seq<char>) -> bool {
    K_PROJECT@.is_prefix_of(key) && holds(key.skip(K_PROJECT@.len() as int), K_BRANCH@) && ends_with(
        key,
        K_STATE@,
    )
}

fn state_key(key: &str) -> (r: bool)
    ensures
        r == is_state_key(key@),
{
    match after_prefix(key, K_PROJECT) {
        Some(rest) => contains_text(rest, K_BRANCH) && has_suffix(key, K_STATE),
        None => false,
    }
}

/// Offers one value.
fn offer<F: Fn(&Ciphertext) -> Option<Result<Ciphertext, Error>>>(v: &Value, f: &F) -> (r: Result<
    Option<Value>,
    Error,
>)
    requires
        forall|c: &Ciphertext| call_requires(*f, (c,)),
    ensures
        match r {
            Ok(Some(w)) => renewed(*f, v@, w@),
            Ok(None) => kept(*f, v@, v@),
            Err(e) => refused(*f, v@, e@),
        },
{
    match v {
        Value::Secret(c) => {
            let given: Option<Result<Ciphertext, Error>> = f(c);
            match given {
                Some(Ok(d)) => {
                    let w: Value = Value::Secret(d);
                    assert(renewed(*f, v@, w@));
                    Ok(Some(w))
                },
                Some(Err(e)) => Err(e),
                None => Ok(None),
            }
        },
        _ => Ok(None),
    }
}

fn rewrap_group<F: Fn(&Ciphertext) -> Option<Result<Ciphertext, Error>>>(
    inner: &OrdMap<Value>,
    f: &F,
) -> (r: Result<(OrdMap<Value>, bool), Error>)
    requires
        forall|c: &Ciphertext| call_requires(*f, (c,)),
    ensures
        match r {
            Ok(p) => group_done(*f, inner@, p.0@, p.1),
            Err(e) => exists|v: ValueView| in_group(inner@, v) && #[trigger] refused(*f, v, e@),
        },
{
    let n: usize = inner.len();
    let ghost rows = listing(inner@);
    let mut out: OrdMap<Value> = OrdMap::new();
    let mut changed: bool = false;
    let mut i: usize = 0;
    while i < n
        invariant
            i <= n == rows.len(),
            rows == listing(inner@),
            is_listing(inner@, rows),
            forall|c: &Ciphertext| call_requires(*f, (c,)),
            forall|k: Seq<char>| #[trigger]
                out@.contains_key(k) ==> inner@.contains_key(k) && (kept(*f, inner@[k], out@[k]) || (
                changed && renewed(*f, inner@[k], out@[k]))),
            forall|j: int| 0 <= j < i ==> out@.contains_key((#[trigger] rows[j]).0),
            forall|j: int| i <= j < rows.len() ==> !out@.contains_key((#[trigger] rows[j]).0),
            changed ==> exists|k: Seq<char>|
                inner@.contains_key(k) && #[trigger] out@.contains_key(k) && renewed(
                    *f,
                    inner@[k],
                    out@[k],
                ),
        decreases n - i,
    {
        let key: &String = inner.key_at(i);
        let v: &Value = inner.value_at(i);
        let ghost was = out@;
        let ghost was_changed = changed;
        proof {
            assert(inner@[rows[i as int].0] == rows[i as int].1);
            assert(inner@.contains_key(rows[i as int].0));
            assert(in_group(inner@, v@));
            assert(!was.contains_key(rows[i as int].0));
            assert forall|j: int| 0 <= j < rows.len() && j != i implies (#[trigger] rows[j]).0
                != rows[i as int].0 by {
                lemma_text_less_irreflexive(rows[i as int].0);
                if j < i {
                    assert(text_less(rows[j].0, rows[i as int].0));
                } else {
                    assert(text_less(rows[i as int].0, rows[j].0));
                }
            }
        }
        match offer(v, f)? {
            Some(w) => {
                changed = true;
                out.insert(key.clone(), w);
                assert(out@.contains_key(key@) && renewed(*f, inner@[key@], out@[key@]));
            },
            None => {
                out.insert(key.clone(), v.dup());
                proof {
                    if was_changed {
                        let k = choose|k: Seq<char>|
                            inner@.contains_key(k) && #[trigger] was.contains_key(k) && renewed(
                                *f,
                                inner@[k],
                                was[k],
                            );
                        assert(out@.contains_key(k) && out@[k] == was[k]);
                    }
                }
            },
        }
        i = i + 1;
    }
    proof {
        assert forall|k: Seq<char>| inner@.contains_key(k) == out@.contains_key(k) by {
            if inner@.contains_key(k) {
                assert(has_row(rows, k));
            }
        }
        assert(inner@.dom() =~= out@.dom());
    }
    Ok((out, changed))
}

fn rewrap_draft_group<F: Fn(&Ciphertext) -> Option<Result<Ciphertext, Error>>>(
    inner: &OrdMap<DraftValue>,
    f: &F,
) -> (r: Result<(OrdMap<DraftValue>, bool), Error>)
    requires
        forall|c: &Ciphertext| call_requires(*f, (c,)),
    ensures
        match r {
            Ok(p) => draft_group_done(*f, inner@, p.0@, p.1),
            Err(e) => exists|v: ValueView|
                in_group(group_values(inner@), v) && #[trigger] refused(*f, v, e@),
        },
{
    let strip: ToValues = ToValues {  };
    let values: OrdMap<Value> = inner.map_values(&strip);
    assert(values@ =~= group_values(inner@));
    let (renewed_values, changed) = rewrap_group(&values, f)?;
    let n: usize = inner.len();
    let ghost rows = listing(inner@);
    let mut out: OrdMap<DraftValue> = OrdMap::new();
    let mut i: usize = 0;
    while i < n
        invariant
            i <= n == rows.len(),
            rows == listing(inner@),
            is_listing(inner@, rows),
            inner@.dom() == renewed_values@.dom(),
            forall|k: Seq<char>| #[trigger]
                out@.contains_key(k) ==> inner@.contains_key(k) && out@[k].value == renewed_values@[k]
                    && out@[k].updated_at == inner@[k].updated_at,
            forall|j: int| 0 <= j < i ==> out@.contains_key((#[trigger] rows[j]).0),
        decreases n - i,
    {
        let key: &String = inner.key_at(i);
        assert(inner@[rows[i as int].0] == rows[i as int].1);
        assert(inner@.dom().contains(key@));
        match renewed_values.get(key.as_str()) {
            Some(v) => {
                let d: DraftValue = DraftValue {
                    value: v.dup(),
                    updated_at: inner.value_at(i).updated_at,
                };
                out.insert(key.clone(), d);
            },
            None => {
                assert(renewed_values@.dom().contains(key@));
                assert(false);
            },
        }
        i = i + 1;
    }
    proof {
        assert forall|k: Seq<char>| inner@.contains_key(k) == out@.contains_key(k) by {
            if inner@.contains_key(k) {
                assert(has_row(rows, k));
            }
        }
        assert(group_values(out@) =~= renewed_values@);
        assert(group_times(out@) =~= group_times(inner@));
    }
    Ok((out, changed))
}

fn rewrap_snapshot<F: Fn(&Ciphertext) -> Option<Result<Ciphertext, Error>>>(
    snap: &SnapshotMap,
    f: &F,
) -> (r: Result<(SnapshotMap, bool), Error>)
    requires
        forall|c: &Ciphertext| call_requires(*f, (c,)),
    ensures
        match r {
            Ok(p) => snap_done(*f, snap@, p.0@, p.1),
            Err(e) => exists|v: ValueView| in_snap(snap@, v) && #[trigger] refused(*f, v, e@),
        },
{
    let n: usize = snap.len();
    let ghost rows = listing(snap@);
    let mut out: SnapshotMap = OrdMap::new();
    let mut changed: bool = false;
    let mut i: usize = 0;
    while i < n
        invariant
            i <= n == rows.len(),
            rows == listing(snap@),
            is_listing(snap@, rows),
            forall|c: &Ciphertext| call_requires(*f, (c,)),
            forall|k: Seq<char>| #[trigger]
                out@.contains_key(k) ==> snap@.contains_key(k) && (group_done(
                    *f,
                    snap@[k],
                    out@[k],
                    false,
                ) || (changed && group_done(*f, snap@[k], out@[k], true))),
            forall|j: int| 0 <= j < i ==> out@.contains_key((#[trigger] rows[j]).0),
            forall|j: int| i <= j < rows.len() ==> !out@.contains_key((#[trigger] rows[j]).0),
            changed ==> exists|k: Seq<char>|
                snap@.contains_key(k) && #[trigger] out@.contains_key(k) && group_done(
                    *f,
                    snap@[k],
                    out@[k],
                    true,
                ),
        decreases n - i,
    {
        let key: &String = snap.key_at(i);
        let ghost was = out@;
        let ghost was_changed = changed;
        proof {
            assert(snap@[rows[i as int].0] == rows[i as int].1);
            assert(snap@.contains_key(rows[i as int].0));
            assert(!was.contains_key(rows[i as int].0));
            assert forall|j: int| 0 <= j < rows.len() && j != i implies (#[trigger] rows[j]).0
                != rows[i as int].0 by {
                lemma_text_less_irreflexive(rows[i as int].0);
                if j < i {
                    assert(text_less(rows[j].0, rows[i as int].0));
                } else {
                    assert(text_less(rows[i as int].0, rows[j].0));
                }
            }
        }
        let (inner, c) = rewrap_group(snap.value_at(i), f)?;
        out.insert(key.clone(), inner);
        if c {
            changed = true;
            assert(out@.contains_key(key@) && group_done(*f, snap@[key@], out@[key@], true));
        } else {
            proof {
                if was_changed {
                    let k = choose|k: Seq<char>|
                        snap@.contains_key(k) && #[trigger] was.contains_key(k) && group_done(
                            *f,
                            snap@[k],
                            was[k],
                            true,
                        );
                    assert(out@.contains_key(k) && out@[k] == was[k]);
                }
            }
        }
        i = i + 1;
    }
    proof {
        assert forall|k: Seq<char>| snap@.contains_key(k) == out@.contains_key(k) by {
            if snap@.contains_key(k) {
                assert(has_row(rows, k));
            }
        }
        assert(snap@.dom() =~= out@.dom());
    }
    Ok((out, changed))
}

fn rewrap_draft<F: Fn(&Ciphertext) -> Option<Result<Ciphertext, Error>>>(
    draft: &OrdMap<OrdMap<DraftValue>>,
    f: &F,
) -> (r: Result<(OrdMap<OrdMap<DraftValue>>, bool), Error>)
    requires
        forall|c: &Ciphertext| call_requires(*f, (c,)),
    ensures
        match r {
            Ok(p) => draft_done(*f, draft@, p.0@, p.1),
            Err(e) => exists|v: ValueView| in_draft(draft@, v) && #[trigger] refused(*f, v, e@),
        },
{
    let n: usize = draft.len();
    let ghost rows = listing(draft@);
    let mut out: OrdMap<OrdMap<DraftValue>> = OrdMap::new();
    let mut changed: bool = false;
    let mut i: usize = 0;
    while i < n
        invariant
            i <= n == rows.len(),
            rows == listing(draft@),
            is_listing(draft@, rows),
            forall|c: &Ciphertext| call_requires(*f, (c,)),
            forall|k: Seq<char>| #[trigger]
                out@.contains_key(k) ==> draft@.contains_key(k) && (draft_group_done(
                    *f,
                    draft@[k],
                    out@[k],
                    false,
                ) || (changed && draft_group_done(*f, draft@[k], out@[k], true))),
            forall|j: int| 0 <= j < i ==> out@.contains_key((#[trigger] rows[j]).0),
            forall|j: int| i <= j < rows.len() ==> !out@.contains_key((#[trigger] rows[j]).0),
            changed ==> exists|k: Seq<char>|
                draft@.contains_key(k) && #[trigger] out@.contains_key(k) && draft_group_done(
                    *f,
                    draft@[k],
                    out@[k],
                    true,
                ),
        decreases n - i,
    {
        let key: &String = draft.key_at(i);
        let ghost was = out@;
        let ghost was_changed = changed;
        proof {
            assert(draft@[rows[i as int].0] == rows[i as int].1);
            assert(draft@.contains_key(rows[i as int].0));
            assert(!was.contains_key(rows[i as int].0));
            assert forall|j: int| 0 <= j < rows.len() && j != i implies (#[trigger] rows[j]).0
                != rows[i as int].0 by {
                lemma_text_less_irreflexive(rows[i as int].0);
                if j < i {
                    assert(text_less(rows[j].0, rows[i as int].0));
                } else {
                    assert(text_less(rows[i as int].0, rows[j].0));
                }
            }
        }
        let (inner, c) = rewrap_draft_group(draft.value_at(i), f)?;
        out.insert(key.clone(), inner);
        if c {
            changed = true;
            assert(out@.contains_key(key@) && draft_group_done(*f, draft@[key@], out@[key@], true));
        } else {
            proof {
                if was_changed {
                    let k = choose|k: Seq<char>|
                        draft@.contains_key(k) && #[trigger] was.contains_key(k) && draft_group_done(
                            *f,
                            draft@[k],
                            was[k],
                            true,
                        );
                    assert(out@.contains_key(k) && out@[k] == was[k]);
                }
            }
        }
        i = i + 1;
    }
    proof {
        assert forall|k: Seq<char>| draft@.contains_key(k) == out@.contains_key(k) by {
            if draft@.contains_key(k) {
                assert(has_row(rows, k));
            }
        }
        assert(draft@.dom() =~= out@.dom());
    }
    Ok((out, changed))
}

fn rewrap_changes<F: Fn(&Ciphertext) -> Option<Result<Ciphertext, Error>>>(
    diff: &Vec<DiffEntry>,
    f: &F,
) -> (r: Result<(Vec<DiffEntry>, bool), Error>)
    requires
        forall|c: &Ciphertext| call_requires(*f, (c,)),
    ensures
        match r {
            Ok(p) => diff_done(*f, views(diff@), views(p.0@), p.1),
            Err(e) => exists|v: ValueView| in_changes(views(diff@), v) && #[trigger] refused(*f, v, e@),
        },
{
    let ghost all = views(diff@);
    let mut out: Vec<DiffEntry> = Vec::new();
    let mut changed: bool = false;
    let mut i: usize = 0;
    while i < diff.len()
        invariant
            i <= diff@.len(),
            i == out@.len(),
            all == views(diff@),
            forall|c: &Ciphertext| call_requires(*f, (c,)),
            forall|j: int|
                0 <= j < i ==> change_kept(*f, #[trigger] all[j], out@[j]@) || (changed
                    && change_renewed(*f, all[j], out@[j]@)),
            changed ==> exists|j: int| 0 <= j < i && change_renewed(*f, #[trigger] all[j], out@[j]@),
        decreases diff@.len() - i,
    {
        let d: &DiffEntry = &diff[i];
        assert(all[i as int] == d@);
        let ghost was = out@;
        let ghost was_changed = changed;
        let mut e: DiffEntry = d.dup();
        match d.kind {
            ChangeKind::Upsert => match &d.new_value {
                Some(v) => match offer(v, f)? {
                    Some(w) => {
                        changed = true;
                        e.new_value = Some(w);
                    },
                    None => {},
                },
                None => {},
            },
            ChangeKind::Delete => {},
        }
        out.push(e);
        proof {
            assert forall|j: int| 0 <= j < i + 1 implies change_kept(*f, #[trigger] all[j], out@[j]@)
                || (changed && change_renewed(*f, all[j], out@[j]@)) by {
                if j < i {
                    assert(out@[j] == was[j]);
                }
            }
            if was_changed {
                let j = choose|j: int| 0 <= j < i && change_renewed(*f, #[trigger] all[j], was[j]@);
                assert(out@[j] == was[j]);
                assert(change_renewed(*f, all[j], out@[j]@));
            } else if changed {
                assert(change_renewed(*f, all[i as int], out@[i as int]@));
            }
        }
        i = i + 1;
    }
    proof {
        let b = views(out@);
        assert forall|j: int| 0 <= j < all.len() implies change_kept(*f, #[trigger] all[j], b[j]) || (
        changed && change_renewed(*f, all[j], b[j])) by {
            assert(b[j] == out@[j]@);
        }
        if changed {
            let j = choose|j: int| 0 <= j < i && change_renewed(*f, #[trigger] all[j], out@[j]@);
            assert(change_renewed(*f, all[j], b[j]));
        }
    }
    Ok((out, changed))
}

/// Offers what an entry holds; the entry that takes its place, where something is renewed.
fn rewrap_entry<F: Fn(&Ciphertext) -> Option<Result<Ciphertext, Error>>>(
    key: &str,
    e: &Entry,
    f: &F,
) -> (r: Result<Option<Entry>, Error>)
    requires
        forall|c: &Ciphertext| call_requires(*f, (c,)),
    ensures
        match r {
            Ok(Some(x)) => entry_done(*f, key@, e@, x@, true),
            Ok(None) => exists|x: EntryView| entry_done(*f, key@, e@, x, false),
            Err(x) => exists|v: ValueView| in_entry(key@, e@, v) && #[trigger] refused(*f, v, x@),
        },
{
    if has_prefix(key, K_SHARED) || has_prefix(key, K_SHARED_DRAFT) {
        match e {
            Entry::Shared(item) => {
                return match offer(&item.value, f)? {
                    Some(w) => {
                        let mut x: SharedItem = item.dup();
                        x.value = w;
                        let ghost v = EntryView::Shared(x@);
                        assert(entry_done(*f, key@, e@, v, true));
                        Ok(Some(Entry::Shared(x)))
                    },
                    None => {
                        assert(entry_done(*f, key@, e@, e@, false));
                        Ok(None)
                    },
                };
            },
            _ => {},
        }
    } else if has_suffix(key, K_SNAP) {
        match e {
            Entry::Snapshot(m) => {
                let (x, changed) = rewrap_snapshot(m, f)?;
                let ghost v = EntryView::Snapshot(x@);
                assert(entry_done(*f, key@, e@, v, changed));
                return Ok(
                    if changed {
                        Some(Entry::Snapshot(x))
                    } else {
                        None
                    },
                );
            },
            _ => {},
        }
    } else if has_suffix(key, K_DIFF) {
        match e {
            Entry::Diff(d) => {
                let (x, changed) = rewrap_changes(d, f)?;
                let ghost v = EntryView::Diff(views(x@));
                assert(entry_done(*f, key@, e@, v, changed));
                return Ok(
                    if changed {
                        Some(Entry::Diff(x))
                    } else {
                        None
                    },
                );
            },
            _ => {},
        }
    } else if state_key(key) {
        match e {
            Entry::Branch(st) => {
                let (draft, changed) = rewrap_draft(&st.value_draft, f)?;
                let mut x: BranchState = st.dup();
                x.value_draft = draft;
                let ghost v = EntryView::Branch(x@);
                assert(entry_done(*f, key@, e@, v, changed));
                return Ok(
                    if changed {
                        Some(Entry::Branch(x))
                    } else {
                        None
                    },
                );
            },
            _ => {},
        }
    }
    assert(entry_done(*f, key@, e@, e@, false));
    Ok(None)
}

/// Under each key the entry is the one that was there, or what its renewal made of it.
pub open spec fn entries_done<F: Fn(&Ciphertext) -> Option<Result<Ciphertext, Error>>>(
    f: F,
    a: State,
    b: State,
) -> bool {
    a.dom() == b.dom() && forall|k: Seq<char>| #[trigger]
        a.contains_key(k) ==> b[k] == a[k] || entry_done(f, k, a[k], b[k], true)
}

/// What became of the rows: those that `flags` marks were renewed, and in the others there was nothing
/// to renew.
pub open spec fn rows_done<F: Fn(&Ciphertext) -> Option<Result<Ciphertext, Error>>>(
    f: F,
    rows: Seq<(Seq<char>, EntryView)>,
    b: State,
    flags: Seq<bool>,
) -> bool {
    flags.len() <= rows.len() && forall|i: int|
        0 <= i < flags.len() ==> if #[trigger] flags[i] {
            entry_done(f, rows[i].0, rows[i].1, b[rows[i].0], true)
        } else {
            b[rows[i].0] == rows[i].1 && exists|x: EntryView|
                entry_done(f, rows[i].0, rows[i].1, x, false)
        }
}

/// `f` gives another ciphertext for the ciphertext.
pub open spec fn moves<F: Fn(&Ciphertext) -> Option<Result<Ciphertext, Error>>>(
    f: F,
    c: CiphertextView,
) -> bool {
    exists|x: &Ciphertext, y: Ciphertext|
        x@ == c && #[trigger] call_ensures(f, (x,), Some(Ok(y)))
}

/// `f` has left the ciphertext alone, or has made it.
pub open spec fn at_rest<F: Fn(&Ciphertext) -> Option<Result<Ciphertext, Error>>>(
    f: F,
    c: CiphertextView,
) -> bool {
    ||| exists|x: &Ciphertext| x@ == c && #[trigger] call_ensures(f, (x,), None)
    ||| exists|x: &Ciphertext, y: Ciphertext|
        y@ == c && #[trigger] call_ensures(f, (x,), Some(Ok(y)))
}

/// For what it has left alone and for what it has made, `f` gives nothing.
pub open spec fn settled<F: Fn(&Ciphertext) -> Option<Result<Ciphertext, Error>>>(f: F) -> bool {
    forall|c: CiphertextView| #[trigger] at_rest(f, c) ==> !moves(f, c)
}

/// Every ciphertext that is offered for the entry is at rest.
pub open spec fn entry_at_rest<F: Fn(&Ciphertext) -> Option<Result<Ciphertext, Error>>>(
    f: F,
    key: Seq<char>,
    e: EntryView,
) -> bool {
    forall|c: CiphertextView| #[trigger] in_entry(key, e, ValueView::Secret(c)) ==> at_rest(f, c)
}

/// Every ciphertext in the store is at rest.
pub open spec fn all_at_rest<F: Fn(&Ciphertext) -> Option<Result<Ciphertext, Error>>>(
    f: F,
    s: State,
) -> bool {
    forall|k: Seq<char>| #[trigger] s.contains_key(k) ==> entry_at_rest(f, k, s[k])
}

/// What was kept or renewed is at rest.
proof fn lemma_value_rests<F: Fn(&Ciphertext) -> Option<Result<Ciphertext, Error>>>(
    f: F,
    a: ValueView,
    b: ValueView,
)
    requires
        kept(f, a, b) || renewed(f, a, b),
    ensures
        b matches ValueView::Secret(c) ==> at_rest(f, c),
{
}

proof fn lemma_group_rests<F: Fn(&Ciphertext) -> Option<Result<Ciphertext, Error>>>(
    f: F,
    a: Map<Seq<char>, ValueView>,
    b: Map<Seq<char>, ValueView>,
    changed: bool,
)
    requires
        group_done(f, a, b, changed),
    ensures
        forall|c: CiphertextView| #[trigger] in_group(b, ValueView::Secret(c)) ==> at_rest(f, c),
        changed ==> exists|c: CiphertextView| #[trigger] in_group(a, ValueView::Secret(c)) && moves(f, c),
{
    assert forall|c: CiphertextView| #[trigger] in_group(b, ValueView::Secret(c)) implies at_rest(f, c) by {
        let k = choose|k: Seq<char>| #[trigger] b.contains_key(k) && b[k] == ValueView::Secret(c);
        assert(b.dom().contains(k));
        assert(a.contains_key(k));
        lemma_value_rests(f, a[k], b[k]);
    }
    if changed {
        let k = choose|k: Seq<char>| #[trigger] a.contains_key(k) && renewed(f, a[k], b[k]);
        let c = a[k]->Secret_0;
        assert(in_group(a, ValueView::Secret(c)));
        assert(moves(f, c));
    }
}

/// After an entry is done, what it holds is at rest; and it changes only where something moves.
proof fn lemma_entry_rests<F: Fn(&Ciphertext) -> Option<Result<Ciphertext, Error>>>(
    f: F,
    key: Seq<char>,
    a: EntryView,
    b: EntryView,
    changed: bool,
)
    requires
        entry_done(f, key, a, b, changed),
    ensures
        entry_at_rest(f, key, b),
        !changed ==> entry_at_rest(f, key, a),
        changed ==> exists|c: CiphertextView| #[trigger]
            in_entry(key, a, ValueView::Secret(c)) && moves(f, c),
{
    if K_SHARED@.is_prefix_of(key) || K_SHARED_DRAFT@.is_prefix_of(key) {
        match (a, b) {
            (EntryView::Shared(x), EntryView::Shared(y)) => {
                lemma_value_rests(f, x.value, y.value);
                if changed {
                    let c = x.value->Secret_0;
                    assert(in_entry(key, a, ValueView::Secret(c)));
                    assert(moves(f, c));
                }
            },
            _ => {},
        }
    } else if ends_with(key, K_SNAP@) {
        match (a, b) {
            (EntryView::Snapshot(x), EntryView::Snapshot(y)) => {
                lemma_snap_rests(f, x, y, changed);
                if changed {
                    let c = choose|c: CiphertextView| #[trigger]
                        in_snap(x, ValueView::Secret(c)) && moves(f, c);
                    assert(in_entry(key, a, ValueView::Secret(c)));
                }
            },
            _ => {},
        }
    } else if ends_with(key, K_DIFF@) {
        match (a, b) {
            (EntryView::Diff(x), EntryView::Diff(y)) => {
                lemma_changes_rest(f, x, y, changed);
                if changed {
                    let c = choose|c: CiphertextView| #[trigger]
                        in_changes(x, ValueView::Secret(c)) && moves(f, c);
                    assert(in_entry(key, a, ValueView::Secret(c)));
                }
            },
            _ => {},
        }
    } else if is_state_key(key) {
        match (a, b) {
            (EntryView::Branch(x), EntryView::Branch(y)) => {
                lemma_draft_rests(f, x.value_draft, y.value_draft, changed);
                if changed {
                    let c = choose|c: CiphertextView| #[trigger]
                        in_draft(x.value_draft, ValueView::Secret(c)) && moves(f, c);
                    assert(in_entry(key, a, ValueView::Secret(c)));
                }
            },
            _ => {},
        }
    }
}

proof fn lemma_snap_rests<F: Fn(&Ciphertext) -> Option<Result<Ciphertext, Error>>>(
    f: F,
    a: SnapView,
    b: SnapView,
    changed: bool,
)
    requires
        snap_done(f, a, b, changed),
    ensures
        forall|c: CiphertextView| #[trigger] in_snap(b, ValueView::Secret(c)) ==> at_rest(f, c),
        !changed ==> forall|c: CiphertextView| #[trigger]
            in_snap(a, ValueView::Secret(c)) ==> at_rest(f, c),
        changed ==> exists|c: CiphertextView| #[trigger] in_snap(a, ValueView::Secret(c)) && moves(f, c),
{
    assert forall|c: CiphertextView| #[trigger] in_snap(b, ValueView::Secret(c)) implies at_rest(f, c) by {
        let g = choose|g: Seq<char>| #[trigger]
            b.contains_key(g) && in_group(b[g], ValueView::Secret(c));
        assert(b.dom().contains(g));
        assert(a.contains_key(g));
        if group_done(f, a[g], b[g], false) {
            lemma_group_rests(f, a[g], b[g], false);
        } else {
            lemma_group_rests(f, a[g], b[g], true);
        }
    }
    if !changed {
        assert forall|g: Seq<char>| #[trigger] a.contains_key(g) implies a[g] == b[g] by {
            lemma_group_kept(f, a[g], b[g]);
        }
        assert(a =~= b);
    } else {
        let g = choose|g: Seq<char>| #[trigger] a.contains_key(g) && group_done(f, a[g], b[g], true);
        lemma_group_rests(f, a[g], b[g], true);
        let c = choose|c: CiphertextView| #[trigger]
            in_group(a[g], ValueView::Secret(c)) && moves(f, c);
        assert(in_snap(a, ValueView::Secret(c)));
    }
}

/// A group in which nothing is renewed stays as it is.
proof fn lemma_group_kept<F: Fn(&Ciphertext) -> Option<Result<Ciphertext, Error>>>(
    f: F,
    a: Map<Seq<char>, ValueView>,
    b: Map<Seq<char>, ValueView>,
)
    requires
        group_done(f, a, b, false),
    ensures
        a == b,
{
    assert forall|k: Seq<char>| #[trigger] a.contains_key(k) implies a[k] == b[k] by {}
    assert(a =~= b);
}

proof fn lemma_draft_rests<F: Fn(&Ciphertext) -> Option<Result<Ciphertext, Error>>>(
    f: F,
    a: DraftView,
    b: DraftView,
    changed: bool,
)
    requires
        draft_done(f, a, b, changed),
    ensures
        forall|c: CiphertextView| #[trigger] in_draft(b, ValueView::Secret(c)) ==> at_rest(f, c),
        !changed ==> forall|c: CiphertextView| #[trigger]
            in_draft(a, ValueView::Secret(c)) ==> at_rest(f, c),
        changed ==> exists|c: CiphertextView| #[trigger] in_draft(a, ValueView::Secret(c)) && moves(f, c),
{
    assert forall|c: CiphertextView| #[trigger] in_draft(b, ValueView::Secret(c)) implies at_rest(f, c) by {
        let g = choose|g: Seq<char>| #[trigger]
            b.contains_key(g) && in_group(group_values(b[g]), ValueView::Secret(c));
        assert(b.dom().contains(g));
        assert(a.contains_key(g));
        if draft_group_done(f, a[g], b[g], false) {
            lemma_group_rests(f, group_values(a[g]), group_values(b[g]), false);
        } else {
            lemma_group_rests(f, group_values(a[g]), group_values(b[g]), true);
        }
    }
    if !changed {
        assert forall|c: CiphertextView| #[trigger] in_draft(a, ValueView::Secret(c)) implies at_rest(
            f,
            c,
        ) by {
            let g = choose|g: Seq<char>| #[trigger]
                a.contains_key(g) && in_group(group_values(a[g]), ValueView::Secret(c));
            assert(draft_group_done(f, a[g], b[g], false));
            lemma_group_kept(f, group_values(a[g]), group_values(b[g]));
            lemma_group_rests(f, group_values(a[g]), group_values(b[g]), false);
        }
    } else {
        let g = choose|g: Seq<char>| #[trigger]
            a.contains_key(g) && draft_group_done(f, a[g], b[g], true);
        lemma_group_rests(f, group_values(a[g]), group_values(b[g]), true);
        let c = choose|c: CiphertextView| #[trigger]
            in_group(group_values(a[g]), ValueView::Secret(c)) && moves(f, c);
        assert(in_draft(a, ValueView::Secret(c)));
    }
}

proof fn lemma_changes_rest<F: Fn(&Ciphertext) -> Option<Result<Ciphertext, Error>>>(
    f: F,
    a: Seq<DiffEntryView>,
    b: Seq<DiffEntryView>,
    changed: bool,
)
    requires
        diff_done(f, a, b, changed),
    ensures
        forall|c: CiphertextView| #[trigger] in_changes(b, ValueView::Secret(c)) ==> at_rest(f, c),
        !changed ==> forall|c: CiphertextView| #[trigger]
            in_changes(a, ValueView::Secret(c)) ==> at_rest(f, c),
        changed ==> exists|c: CiphertextView| #[trigger]
            in_changes(a, ValueView::Secret(c)) && moves(f, c),
{
    assert forall|c: CiphertextView| #[trigger] in_changes(b, ValueView::Secret(c)) implies at_rest(
        f,
        c,
    ) by {
        let i = choose|i: int| 0 <= i < b.len() && offered(#[trigger] b[i]) == Some(
            ValueView::Secret(c),
        );
        if change_kept(f, a[i], b[i]) {
            lemma_value_rests(f, offered(a[i])->0, offered(b[i])->0);
        } else {
            lemma_value_rests(f, offered(a[i])->0, b[i].new_value->0);
        }
    }
    if !changed {
        assert forall|i: int| 0 <= i < a.len() implies #[trigger] a[i] == b[i] by {}
        assert(a =~= b);
    } else {
        let i = choose|i: int| 0 <= i < a.len() && change_renewed(f, #[trigger] a[i], b[i]);
        let c = offered(a[i])->0->Secret_0;
        assert(in_changes(a, ValueView::Secret(c)));
        assert(moves(f, c));
    }
}

/// After all rows are done, the store is at rest; and a store at rest stays as it is.
proof fn lemma_rows_rest<F: Fn(&Ciphertext) -> Option<Result<Ciphertext, Error>>>(
    f: F,
    s: State,
    rows: Seq<(Seq<char>, EntryView)>,
    t: State,
    flags: Seq<bool>,
)
    requires
        is_listing(s, rows),
        flags.len() == rows.len(),
        rows_done(f, rows, t, flags),
        s.dom() == t.dom(),
    ensures
        all_at_rest(f, t),
        settled(f) && all_at_rest(f, s) ==> marks(flags) == 0,
{
    assert forall|k: Seq<char>| #[trigger] t.contains_key(k) implies entry_at_rest(f, k, t[k]) by {
        assert(t.dom().contains(k));
        assert(s.contains_key(k));
        assert(has_row(rows, k));
        let i = choose|i: int| 0 <= i < rows.len() && #[trigger] rows[i].0 == k;
        if flags[i] {
            lemma_entry_rests(f, k, rows[i].1, t[k], true);
        } else {
            let x = choose|x: EntryView| entry_done(f, rows[i].0, rows[i].1, x, false);
            lemma_entry_rests(f, k, rows[i].1, x, false);
        }
    }
    if settled(f) && all_at_rest(f, s) {
        assert forall|i: int| 0 <= i < flags.len() implies !#[trigger] flags[i] by {
            if flags[i] {
                let k = rows[i].0;
                assert(s.contains_key(k));
                lemma_entry_rests(f, k, rows[i].1, t[k], true);
                let c = choose|c: CiphertextView| #[trigger]
                    in_entry(k, rows[i].1, ValueView::Secret(c)) && moves(f, c);
                assert(at_rest(f, c));
            }
        }
        lemma_no_marks(flags);
    }
}

/// Where a function gives nothing for what it has left alone and for what it has made, offering it every
/// ciphertext a second time changes nothing: `t` is what a first call makes of `s`, and `u` what a second
/// makes of `t`.
pub proof fn law_second_rewrap_writes_nothing<
    F: Fn(&Ciphertext) -> Option<Result<Ciphertext, Error>>,
>(
    f: F,
    s: State,
    rows: Seq<(Seq<char>, EntryView)>,
    flags: Seq<bool>,
    t: State,
    more: Seq<(Seq<char>, EntryView)>,
    again: Seq<bool>,
    u: State,
)
    requires
        settled(f),
        is_listing(s, rows) && flags.len() == rows.len() && rows_done(f, rows, t, flags),
        entries_done(f, s, t),
        is_listing(t, more) && again.len() == more.len() && rows_done(f, more, u, again),
        entries_done(f, t, u),
    ensures
        marks(again) == 0,
{
    lemma_rows_rest(f, s, rows, t, flags);
    lemma_rows_rest(f, t, more, u, again);
}

proof fn lemma_no_marks(flags: Seq<bool>)
    requires
        forall|i: int| 0 <= i < flags.len() ==> !#[trigger] flags[i],
    ensures
        marks(flags) == 0,
    decreases flags.len(),
{
    if flags.len() > 0 {
        let d = flags.drop_last();
        assert forall|i: int| 0 <= i < d.len() implies !#[trigger] d[i] by {
            assert(d[i] == flags[i]);
        }
        lemma_no_marks(d);
        assert(!flags[flags.len() - 1]);
    }
}

/// The number of marks.
pub open spec fn marks(flags: Seq<bool>) -> nat
    decreases flags.len(),
{
    if flags.len() == 0 {
        0
    } else {
        marks(flags.drop_last()) + if flags.last() {
            1nat
        } else {
            0nat
        }
    }
}

impl<S: Store> StateMachine<S> {
    /// Offers every ciphertext in the store to `f`: nothing keeps it, another one takes its place, and an
    /// error ends the work. The result counts the entries that were written. Where `f` gives nothing for
    /// what it has left alone and for what it has made, a second call writes nothing.
    pub fn rewrap_deks<F: Fn(&Ciphertext) -> Option<Result<Ciphertext, Error>>>(&mut self, f: &F) -> (r:
        Result<usize, Error>)
        requires
            old(self).idle(),
            forall|c: &Ciphertext| call_requires(*f, (c,)),
        ensures
            final(self).reliable() == old(self).reliable(),
            final(self).base() == final(self)@,
            final(self).idle(),
            entries_done(*f, old(self)@, final(self)@),
            r is Ok ==> all_at_rest(*f, final(self)@),
            settled(*f) && all_at_rest(*f, old(self)@) ==> (r matches Ok(n) ==> n == 0),
            match r {
                Ok(n) => exists|rows: Seq<(Seq<char>, EntryView)>, flags: Seq<bool>|
                    is_listing(old(self)@, rows) && flags.len() == rows.len() && #[trigger] rows_done(
                        *f,
                        rows,
                        final(self)@,
                        flags,
                    ) && n == marks(flags),
                Err(e) => !old(self).reliable() || exists|v: ValueView|
                    in_state(old(self)@, v) && #[trigger] refused(*f, v, e@),
            },
    {
        let rows: KeyValuePairs = self.dump_all()?;
        let ghost s = self@;
        let ghost all = row_views(rows@);
        let ghost mut flags: Seq<bool> = Seq::empty();
        let mut count: usize = 0;
        let mut i: usize = 0;
        while i < rows.len()
            invariant
                i <= rows@.len() == all.len(),
                count <= i,
                all == row_views(rows@),
                is_listing(s, all),
                s == old(self)@,
                self.idle(),
                self@ == self.base(),
                self.reliable() == old(self).reliable(),
                forall|c: &Ciphertext| call_requires(*f, (c,)),
                flags.len() == i,
                count == marks(flags),
                rows_done(*f, all, self@, flags),
                entries_done(*f, s, self@),
                forall|j: int| i <= j < all.len() ==> self@[(#[trigger] all[j]).0] == all[j].1,
            decreases rows@.len() - i,
        {
            let ghost now = self@;
            let key: &str = rows[i].0.as_str();
            proof {
                assert(all[i as int] == (rows@[i as int].0@, rows@[i as int].1@));
                assert(s.contains_key(all[i as int].0));
                assert forall|j: int| 0 <= j < all.len() && j != i implies (#[trigger] all[j]).0
                    != all[i as int].0 by {
                    lemma_text_less_irreflexive(all[i as int].0);
                    if j < i {
                        assert(text_less(all[j].0, all[i as int].0));
                    } else {
                        assert(text_less(all[i as int].0, all[j].0));
                    }
                }
            }
            match rewrap_entry(key, &rows[i].1, f)? {
                Some(x) => {
                    self.write_through(key, &x)?;
                    count = count + 1;
                    proof {
                        let next = flags.push(true);
                        assert(next.drop_last() =~= flags);
                        assert(now.insert(key@, x@).dom() =~= now.dom());
                        assert forall|j: int| 0 <= j < next.len() implies if #[trigger] next[j] {
                            entry_done(*f, all[j].0, all[j].1, self@[all[j].0], true)
                        } else {
                            self@[all[j].0] == all[j].1 && exists|y: EntryView|
                                entry_done(*f, all[j].0, all[j].1, y, false)
                        } by {
                            if j < i {
                                assert(flags[j] == next[j]);
                                assert(self@[all[j].0] == now[all[j].0]);
                            }
                        }
                        flags = next;
                    }
                },
                None => {
                    proof {
                        let next = flags.push(false);
                        assert(next.drop_last() =~= flags);
                        assert forall|j: int| 0 <= j < next.len() implies if #[trigger] next[j] {
                            entry_done(*f, all[j].0, all[j].1, self@[all[j].0], true)
                        } else {
                            self@[all[j].0] == all[j].1 && exists|y: EntryView|
                                entry_done(*f, all[j].0, all[j].1, y, false)
                        } by {
                            if j < i {
                                assert(flags[j] == next[j]);
                            }
                        }
                        flags = next;
                    }
                },
            }
            i = i + 1;
        }
        proof {
            lemma_rows_rest(*f, s, all, self@, flags);
        }
        Ok(count)
    }
}

} // verus!
