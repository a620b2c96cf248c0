//! Changes between two materialised configurations.
use vstd::prelude::*;

use crate::dup::{Dup, views};
use crate::model::{
    ChangeKind, DiffEntry, DiffEntryView, SnapView, SnapshotMap, Value, ValueView, same_values,
    value_eq,
};
use crate::ordmap::{OrdMap, has_row, lemma_listing_exists, listing};

verus! {

/// An item: its group, its key and its value.
pub type Item = (Seq<char>, Seq<char>, ValueView);

/// The value of an item.
pub open spec fn item_of(m: SnapView, group: Seq<char>, key: Seq<char>) -> Option<ValueView> {
    if m.contains_key(group) && m[group].contains_key(key) {
        Some(m[group][key])
    } else {
        None
    }
}

/// The configuration with one item set.
pub open spec fn put_item(m: SnapView, group: Seq<char>, key: Seq<char>, v: ValueView) -> SnapView {
    m.insert(
        group,
        (if m.contains_key(group) {
            m[group]
        } else {
            Map::empty()
        }).insert(key, v),
    )
}

/// The configuration with one item deleted; a group that this leaves empty goes with it.
pub open spec fn drop_item(m: SnapView, group: Seq<char>, key: Seq<char>) -> SnapView {
    if !m.contains_key(group) {
        m
    } else if m[group].remove(key) == Map::<Seq<char>, ValueView>::empty() {
        m.remove(group)
    } else {
        m.insert(group, m[group].remove(key))
    }
}

pub open spec fn group_items(group: Seq<char>, rows: Seq<(Seq<char>, ValueView)>) -> Seq<Item> {
    Seq::new(rows.len(), |i: int| (group, rows[i].0, rows[i].1))
}

pub open spec fn rows_items(rows: Seq<(Seq<char>, Map<Seq<char>, ValueView>)>) -> Seq<Item>
    decreases rows.len(),
{
    if rows.len() == 0 {
        Seq::empty()
    } else {
        rows_items(rows.drop_last()) + group_items(rows.last().0, listing(rows.last().1))
    }
}

/// The items of a configuration, in the order of groups and keys.
pub open spec fn items(m: SnapView) -> Seq<Item> {
    rows_items(listing(m))
}

pub open spec fn changed(old: SnapView, x: Item) -> bool {
    match item_of(old, x.0, x.1) {
        Some(v) => !value_eq(v, x.2),
        None => true,
    }
}

/// An upsert for each item that is new or differs from `old`.
pub open spec fn upserts(old: SnapView, s: Seq<Item>) -> Seq<DiffEntryView>
    decreases s.len(),
{
    if s.len() == 0 {
        Seq::empty()
    } else {
        let x = s.last();
        let before = upserts(old, s.drop_last());
        if changed(old, x) {
            before.push(
                DiffEntryView {
                    group: x.0,
                    key: x.1,
                    kind: ChangeKind::Upsert,
                    new_value: Some(x.2),
                },
            )
        } else {
            before
        }
    }
}

/// A deletion for each item that `new` does not have.
pub open spec fn deletions(new: SnapView, s: Seq<Item>) -> Seq<DiffEntryView>
    decreases s.len(),
{
    if s.len() == 0 {
        Seq::empty()
    } else {
        let x = s.last();
        let before = deletions(new, s.drop_last());
        if item_of(new, x.0, x.1) is None {
            before.push(
                DiffEntryView { group: x.0, key: x.1, kind: ChangeKind::Delete, new_value: None },
            )
        } else {
            before
        }
    }
}

/// The changes from `old` to `new`: the upserts in the order of `new`, then the deletions in the
/// order of `old`.
pub open spec fn diff_of(old: SnapView, new: SnapView) -> Seq<DiffEntryView> {
    upserts(old, items(new)) + deletions(new, items(old))
}

/// The configuration after one change. An upsert without a value changes nothing.
pub open spec fn apply_entry(m: SnapView, d: DiffEntryView) -> SnapView {
    match d.kind {
        ChangeKind::Upsert => match d.new_value {
            Some(v) => put_item(m, d.group, d.key, v),
            None => m,
        },
        ChangeKind::Delete => drop_item(m, d.group, d.key),
    }
}

/// The configuration after all changes, one after another.
pub open spec fn apply_all(m: SnapView, diff: Seq<DiffEntryView>) -> SnapView
    decreases diff.len(),
{
    if diff.len() == 0 {
        m
    } else {
        apply_entry(apply_all(m, diff.drop_last()), diff.last())
    }
}

/// The two configurations have the same items, with equal values.
pub open spec fn same_items(a: SnapView, b: SnapView) -> bool {
    forall|g: Seq<char>, k: Seq<char>|
        match (#[trigger] item_of(a, g, k), item_of(b, g, k)) {
            (Some(x), Some(y)) => value_eq(x, y),
            (None, None) => true,
            _ => false,
        }
}

/// Puts one item into a configuration.
pub fn set_item<V: View>(m: &mut OrdMap<OrdMap<V>>, group: &str, key: &str, value: V)
    ensures
        final(m)@ == old(m)@.insert(
            group@,
            (if old(m)@.contains_key(group@) {
                old(m)@[group@]
            } else {
                Map::empty()
            }).insert(key@, value@),
        ),
{
    let ghost before = m@;
    let mut inner: OrdMap<V> = match m.take(group) {
        Some(inner) => inner,
        None => OrdMap::new(),
    };
    inner.insert(key.to_owned(), value);
    let ghost now = inner@;
    m.insert(group.to_owned(), inner);
    assert(before.remove(group@).insert(group@, now) =~= before.insert(group@, now));
}

fn unset_item(m: &mut SnapshotMap, group: &str, key: &str)
    ensures
        final(m)@ == drop_item(old(m)@, group@, key@),
{
    let ghost before = m@;
    match m.take(group) {
        Some(inner) => {
            let mut inner: OrdMap<Value> = inner;
            inner.remove(key);
            if !inner.is_empty() {
                let ghost now = inner@;
                m.insert(group.to_owned(), inner);
                assert(before.remove(group@).insert(group@, now) =~= before.insert(group@, now));
            }
        },
        None => {
            assert(before.remove(group@) =~= before);
        },
    }
}

/// Applies the changes to `snap`, one after another.
pub fn apply_in_place(snap: &mut SnapshotMap, diff: &Vec<DiffEntry>)
    ensures
        final(snap)@ == apply_all(old(snap)@, views(diff@)),
{
    let ghost start = snap@;
    let ghost all = views(diff@);
    let mut i: usize = 0;
    assert(all.take(0) =~= Seq::empty());
    while i < diff.len()
        invariant
            i <= diff@.len(),
            all == views(diff@),
            snap@ == apply_all(start, all.take(i as int)),
        decreases diff@.len() - i,
    {
        assert(all.take(i + 1).drop_last() =~= all.take(i as int));
        let d: &DiffEntry = &diff[i];
        assert(all.take(i + 1).last() == d@);
        match d.kind {
            ChangeKind::Upsert => match &d.new_value {
                Some(v) => set_item(snap, d.group.as_str(), d.key.as_str(), v.dup()),
                None => {},
            },
            ChangeKind::Delete => unset_item(snap, d.group.as_str(), d.key.as_str()),
        }
        i = i + 1;
    }
    assert(all.take(i as int) =~= all);
}

/// The configuration that the changes make of `base`. Every upsert has a value.
pub fn apply_diff(base: &SnapshotMap, diff: &Vec<DiffEntry>) -> (r: SnapshotMap)
    requires
        forall|i: int|
            0 <= i < diff@.len() ==> (#[trigger] diff@[i]).kind == ChangeKind::Upsert
                ==> diff@[i].new_value is Some,
    ensures
        r@ == apply_all(base@, views(diff@)),
{
    let mut out: SnapshotMap = base.dup();
    apply_in_place(&mut out, diff);
    out
}

fn lookup<'a>(m: &'a SnapshotMap, group: &str, key: &str) -> (r: Option<&'a Value>)
    ensures
        view_of(r) == item_of(m@, group@, key@),
{
    match m.get(group) {
        Some(inner) => inner.get(key),
        None => None,
    }
}

pub open spec fn view_of(r: Option<&Value>) -> Option<ValueView> {
    match r {
        Some(v) => Some(v@),
        None => None,
    }
}

/// The changes from `old` to `new`, in a fixed order. Secrets are compared by their ciphertext.
pub fn compute_diff(old: &SnapshotMap, new: &SnapshotMap) -> (r: Vec<DiffEntry>)
    ensures
        views(r@) == diff_of(old@, new@),
        forall|i: int|
            0 <= i < r@.len() ==> (#[trigger] r@[i]).kind == ChangeKind::Upsert
                ==> r@[i].new_value is Some,
{
    let mut out: Vec<DiffEntry> = Vec::new();
    let mut i: usize = 0;
    let groups: usize = new.len();
    let ghost rows = listing(new@);
    assert(rows.take(0) =~= Seq::empty());
    assert(views(out@) =~= Seq::empty());
    while i < groups
        invariant
            i <= groups == rows.len(),
            rows == listing(new@),
            views(out@) == upserts(old@, rows_items(rows.take(i as int))),
            forall|k: int|
                0 <= k < out@.len() ==> (#[trigger] out@[k]).kind == ChangeKind::Upsert
                    ==> out@[k].new_value is Some,
        decreases groups - i,
    {
        let group: &String = new.key_at(i);
        let inner: &OrdMap<Value> = new.value_at(i);
        let ghost done = rows_items(rows.take(i as int));
        let ghost irows = listing(inner@);
        let n: usize = inner.len();
        let mut j: usize = 0;
        assert(done + group_items(group@, irows.take(0)) =~= done);
        while j < n
            invariant
                j <= n == irows.len(),
                irows == listing(inner@),
                views(out@) == upserts(old@, done + group_items(group@, irows.take(j as int))),
                forall|k: int|
                    0 <= k < out@.len() ==> (#[trigger] out@[k]).kind == ChangeKind::Upsert
                        ==> out@[k].new_value is Some,
            decreases n - j,
        {
            let key: &String = inner.key_at(j);
            let value: &Value = inner.value_at(j);
            proof {
                let s = done + group_items(group@, irows.take(j + 1));
                assert(s.last() == (group@, irows[j as int].0, irows[j as int].1));
                assert(s.drop_last() =~= done + group_items(group@, irows.take(j as int)));
            }
            let equal: bool = match lookup(old, group.as_str(), key.as_str()) {
                Some(v) => same_values(v, value),
                None => false,
            };
            if !equal {
                let ghost before = views(out@);
                let entry: DiffEntry = DiffEntry {
                    group: group.clone(),
                    key: key.clone(),
                    kind: ChangeKind::Upsert,
                    new_value: Some(value.dup()),
                };
                let ghost e = entry@;
                out.push(entry);
                assert(views(out@) =~= before.push(e));
            }
            j = j + 1;
        }
        proof {
            assert(irows.take(n as int) =~= irows);
            assert(rows.take(i + 1).drop_last() =~= rows.take(i as int));
            assert(rows.take(i + 1).last() == rows[i as int]);
        }
        i = i + 1;
    }
    assert(rows.take(i as int) =~= rows);
    let ghost first = views(out@);
    let ghost orows = listing(old@);
    let groups: usize = old.len();
    let mut i: usize = 0;
    assert(orows.take(0) =~= Seq::empty());
    assert(first + deletions(new@, Seq::empty()) =~= first);
    while i < groups
        invariant
            i <= groups == orows.len(),
            orows == listing(old@),
            views(out@) == first + deletions(new@, rows_items(orows.take(i as int))),
            forall|k: int|
                0 <= k < out@.len() ==> (#[trigger] out@[k]).kind == ChangeKind::Upsert
                    ==> out@[k].new_value is Some,
        decreases groups - i,
    {
        let group: &String = old.key_at(i);
        let inner: &OrdMap<Value> = old.value_at(i);
        let ghost done = rows_items(orows.take(i as int));
        let ghost irows = listing(inner@);
        let n: usize = inner.len();
        let mut j: usize = 0;
        assert(done + group_items(group@, irows.take(0)) =~= done);
        while j < n
            invariant
                j <= n == irows.len(),
                irows == listing(inner@),
                views(out@) == first + deletions(
                    new@,
                    done + group_items(group@, irows.take(j as int)),
                ),
                forall|k: int|
                    0 <= k < out@.len() ==> (#[trigger] out@[k]).kind == ChangeKind::Upsert
                        ==> out@[k].new_value is Some,
            decreases n - j,
        {
            let key: &String = inner.key_at(j);
            proof {
                let s = done + group_items(group@, irows.take(j + 1));
                assert(s.last() == (group@, irows[j as int].0, irows[j as int].1));
                assert(s.drop_last() =~= done + group_items(group@, irows.take(j as int)));
            }
            if lookup(new, group.as_str(), key.as_str()).is_none() {
                let ghost before = views(out@);
                let entry: DiffEntry = DiffEntry {
                    group: group.clone(),
                    key: key.clone(),
                    kind: ChangeKind::Delete,
                    new_value: None,
                };
                let ghost e = entry@;
                out.push(entry);
                assert(views(out@) =~= before.push(e));
                assert(views(out@) =~= first + deletions(
                    new@,
                    done + group_items(group@, irows.take(j + 1)),
                ));
            }
            j = j + 1;
        }
        proof {
            assert(irows.take(n as int) =~= irows);
            assert(orows.take(i + 1).drop_last() =~= orows.take(i as int));
            assert(orows.take(i + 1).last() == orows[i as int]);
        }
        i = i + 1;
    }
    assert(orows.take(i as int) =~= orows);
    out
}

// ---------------------------------------------------------------------------------------------
// Laws
// ---------------------------------------------------------------------------------------------

/// A configuration that can be written down: finitely many groups of finitely many items.
pub open spec fn finite_snap(m: SnapView) -> bool {
    m.dom().finite() && forall|g: Seq<char>| #[trigger] m.contains_key(g) ==> m[g].dom().finite()
}

/// A configuration without empty groups.
pub open spec fn tidy(m: SnapView) -> bool {
    forall|g: Seq<char>| #[trigger]
        m.contains_key(g) ==> m[g] != Map::<Seq<char>, ValueView>::empty()
}

proof fn lemma_rows_items_member(
    rows: Seq<(Seq<char>, Map<Seq<char>, ValueView>)>,
    g: Seq<char>,
    k: Seq<char>,
    v: ValueView,
)
    requires
        forall|i: int| 0 <= i < rows.len() ==> (#[trigger] rows[i]).1.dom().finite(),
    ensures
        rows_items(rows).contains((g, k, v)) <==> exists|i: int|
            0 <= i < rows.len() && (#[trigger] rows[i]).0 == g && rows[i].1.contains_key(k)
                && rows[i].1[k] == v,
    decreases rows.len(),
{
    if rows.len() > 0 {
        let d = rows.drop_last();
        let l = rows.len() - 1;
        assert forall|i: int| 0 <= i < d.len() implies (#[trigger] d[i]).1.dom().finite() by {
            assert(d[i] == rows[i]);
        }
        lemma_rows_items_member(d, g, k, v);
        let inner = rows[l].1;
        let irows = listing(inner);
        lemma_listing_exists(inner);
        let a = rows_items(d);
        let b = group_items(rows[l].0, irows);
        assert(rows_items(rows) == a + b);
        let x = (g, k, v);
        if a.contains(x) {
            let j = a.index_of(x);
            assert((a + b)[j] == x);
            let i = choose|i: int|
                0 <= i < d.len() && (#[trigger] d[i]).0 == g && d[i].1.contains_key(k)
                    && d[i].1[k] == v;
            assert(rows[i] == d[i]);
        }
        if b.contains(x) {
            let j = b.index_of(x);
            assert((a + b)[a.len() + j] == x);
            assert(inner.contains_key(irows[j].0));
            assert(rows[l].0 == g && rows[l].1.contains_key(k) && rows[l].1[k] == v);
        }
        if (a + b).contains(x) {
            let j = (a + b).index_of(x);
            if j < a.len() {
                assert(a[j] == x);
            } else {
                assert(b[j - a.len()] == x);
            }
        }
        if exists|i: int|
            0 <= i < rows.len() && (#[trigger] rows[i]).0 == g && rows[i].1.contains_key(k)
                && rows[i].1[k] == v {
            let i = choose|i: int|
                0 <= i < rows.len() && (#[trigger] rows[i]).0 == g && rows[i].1.contains_key(k)
                    && rows[i].1[k] == v;
            if i < l {
                assert(d[i] == rows[i]);
            } else {
                assert(has_row(irows, k));
                let j = choose|j: int| 0 <= j < irows.len() && #[trigger] irows[j].0 == k;
                assert(b[j] == x);
            }
        }
    }
}

/// What is listed is what the configuration holds.
pub proof fn lemma_items_member(m: SnapView, g: Seq<char>, k: Seq<char>, v: ValueView)
    requires
        finite_snap(m),
    ensures
        items(m).contains((g, k, v)) <==> item_of(m, g, k) == Some(v),
{
    lemma_listing_exists(m);
    let rows = listing(m);
    assert forall|i: int| 0 <= i < rows.len() implies (#[trigger] rows[i]).1.dom().finite() by {
        assert(m.contains_key(rows[i].0));
    }
    lemma_rows_items_member(rows, g, k, v);
    if item_of(m, g, k) == Some(v) {
        assert(has_row(rows, g));
        let i = choose|i: int| 0 <= i < rows.len() && #[trigger] rows[i].0 == g;
        assert(rows[i].0 == g && rows[i].1.contains_key(k) && rows[i].1[k] == v);
    }
    if items(m).contains((g, k, v)) {
        let i = choose|i: int|
            0 <= i < rows.len() && (#[trigger] rows[i]).0 == g && rows[i].1.contains_key(k)
                && rows[i].1[k] == v;
        assert(m[rows[i].0] == rows[i].1);
    }
}

proof fn lemma_apply_all_concat(m: SnapView, a: Seq<DiffEntryView>, b: Seq<DiffEntryView>)
    ensures
        apply_all(m, a + b) == apply_all(apply_all(m, a), b),
    decreases b.len(),
{
    if b.len() == 0 {
        assert(a + b =~= a);
    } else {
        assert((a + b).drop_last() =~= a + b.drop_last());
        lemma_apply_all_concat(m, a, b.drop_last());
    }
}

pub open spec fn touched(s: Seq<Item>, g: Seq<char>, k: Seq<char>, p: spec_fn(Item) -> bool) -> bool {
    exists|i: int| 0 <= i < s.len() && (#[trigger] s[i]).0 == g && s[i].1 == k && p(s[i])
}

proof fn lemma_touched_push(s: Seq<Item>, g: Seq<char>, k: Seq<char>, p: spec_fn(Item) -> bool)
    requires
        s.len() > 0,
    ensures
        touched(s, g, k, p) == (touched(s.drop_last(), g, k, p) || (s.last().0 == g && s.last().1
            == k && p(s.last()))),
{
    let d = s.drop_last();
    if touched(d, g, k, p) {
        let i = choose|i: int| 0 <= i < d.len() && (#[trigger] d[i]).0 == g && d[i].1 == k && p(d[i]);
        assert(s[i] == d[i]);
    }
    if touched(s, g, k, p) {
        let i = choose|i: int| 0 <= i < s.len() && (#[trigger] s[i]).0 == g && s[i].1 == k && p(s[i]);
        if i < d.len() {
            assert(d[i] == s[i]);
        }
    }
    if s.last().0 == g && s.last().1 == k && p(s.last()) {
        assert(s[s.len() - 1] == s.last());
    }
}

proof fn lemma_apply_upserts(old: SnapView, new: SnapView, s: Seq<Item>, g: Seq<char>, k: Seq<char>)
    requires
        forall|i: int| 0 <= i < s.len() ==> item_of(new, (#[trigger] s[i]).0, s[i].1) == Some(s[i].2),
    ensures
        item_of(apply_all(old, upserts(old, s)), g, k) == (if touched(
            s,
            g,
            k,
            |x: Item| changed(old, x),
        ) {
            item_of(new, g, k)
        } else {
            item_of(old, g, k)
        }),
    decreases s.len(),
{
    let p = |x: Item| changed(old, x);
    if s.len() > 0 {
        let d = s.drop_last();
        assert forall|i: int| 0 <= i < d.len() implies item_of(new, (#[trigger] d[i]).0, d[i].1)
            == Some(d[i].2) by {
            assert(d[i] == s[i]);
        }
        lemma_apply_upserts(old, new, d, g, k);
        lemma_touched_push(s, g, k, p);
        assert(s[s.len() - 1] == s.last());
        let x = s.last();
        let ups = upserts(old, d);
        if changed(old, x) {
            assert(upserts(old, s).drop_last() =~= ups);
        }
    }
}

proof fn lemma_apply_deletions(m: SnapView, new: SnapView, s: Seq<Item>, g: Seq<char>, k: Seq<char>)
    ensures
        item_of(apply_all(m, deletions(new, s)), g, k) == (if touched(
            s,
            g,
            k,
            |x: Item| item_of(new, x.0, x.1) is None,
        ) {
            None
        } else {
            item_of(m, g, k)
        }),
    decreases s.len(),
{
    let p = |x: Item| item_of(new, x.0, x.1) is None;
    if s.len() > 0 {
        let d = s.drop_last();
        lemma_apply_deletions(m, new, d, g, k);
        lemma_touched_push(s, g, k, p);
        let x = s.last();
        let dels = deletions(new, d);
        if p(x) {
            assert(deletions(new, s).drop_last() =~= dels);
            let before = apply_all(m, dels);
            assert(apply_all(m, deletions(new, s)) == drop_item(before, x.0, x.1));
            lemma_drop_item(before, x.0, x.1, g, k);
        }
    }
}

proof fn lemma_drop_item(m: SnapView, a: Seq<char>, b: Seq<char>, g: Seq<char>, k: Seq<char>)
    ensures
        item_of(drop_item(m, a, b), g, k) == (if a == g && b == k {
            None
        } else {
            item_of(m, g, k)
        }),
{
    if m.contains_key(a) && m[a].remove(b) == Map::<Seq<char>, ValueView>::empty() && a == g && k != b
        && m[a].contains_key(k) {
        assert(m[a].remove(b).contains_key(k));
    }
}

/// Applying the changes from `old` to `new` to `old` gives the items of `new`.
pub proof fn law_diff_leads_from_old_to_new(old: SnapView, new: SnapView)
    requires
        finite_snap(old),
        finite_snap(new),
    ensures
        same_items(apply_all(old, diff_of(old, new)), new),
{
    let ups = upserts(old, items(new));
    let dels = deletions(new, items(old));
    let mid = apply_all(old, ups);
    let r = apply_all(old, diff_of(old, new));
    lemma_apply_all_concat(old, ups, dels);
    assert forall|i: int| 0 <= i < items(new).len() implies item_of(
        new,
        (#[trigger] items(new)[i]).0,
        items(new)[i].1,
    ) == Some(items(new)[i].2) by {
        let x = items(new)[i];
        assert(items(new).contains(x));
        lemma_items_member(new, x.0, x.1, x.2);
    }
    assert forall|g: Seq<char>, k: Seq<char>|
        match (#[trigger] item_of(r, g, k), item_of(new, g, k)) {
            (Some(x), Some(y)) => value_eq(x, y),
            (None, None) => true,
            _ => false,
        } by {
        lemma_apply_upserts(old, new, items(new), g, k);
        lemma_apply_deletions(mid, new, items(old), g, k);
        let pc = |x: Item| changed(old, x);
        let pd = |x: Item| item_of(new, x.0, x.1) is None;
        match item_of(new, g, k) {
            Some(v) => {
                lemma_items_member(new, g, k, v);
                let x = (g, k, v);
                let i = items(new).index_of(x);
                assert(items(new)[i] == x);
                if pc(x) {
                    assert(touched(items(new), g, k, pc));
                }
                assert(!touched(items(old), g, k, pd));
                if touched(items(new), g, k, pc) {
                    let j = choose|j: int|
                        0 <= j < items(new).len() && (#[trigger] items(new)[j]).0 == g && items(
                            new,
                        )[j].1 == k && pc(items(new)[j]);
                    assert(items(new)[j].2 == v);
                }
            },
            None => {
                assert(!touched(items(new), g, k, pc));
                match item_of(old, g, k) {
                    Some(v) => {
                        lemma_items_member(old, g, k, v);
                        let x = (g, k, v);
                        let i = items(old).index_of(x);
                        assert(items(old)[i] == x);
                        assert(pd(x));
                        assert(touched(items(old), g, k, pd));
                    },
                    None => {},
                }
            },
        }
    }
}

/// Between a configuration and itself nothing changes.
pub proof fn law_no_diff_to_itself(m: SnapView)
    requires
        finite_snap(m),
    ensures
        diff_of(m, m) == Seq::<DiffEntryView>::empty(),
{
    let s = items(m);
    assert forall|i: int| 0 <= i < s.len() implies item_of(m, (#[trigger] s[i]).0, s[i].1) == Some(
        s[i].2,
    ) by {
        assert(s.contains(s[i]));
        lemma_items_member(m, s[i].0, s[i].1, s[i].2);
    }
    lemma_none_changed(m, s);
    assert(diff_of(m, m) =~= Seq::empty());
}

proof fn lemma_none_changed(m: SnapView, s: Seq<Item>)
    requires
        forall|i: int| 0 <= i < s.len() ==> item_of(m, (#[trigger] s[i]).0, s[i].1) == Some(s[i].2),
    ensures
        upserts(m, s).len() == 0,
        deletions(m, s).len() == 0,
    decreases s.len(),
{
    if s.len() > 0 {
        let d = s.drop_last();
        assert forall|i: int| 0 <= i < d.len() implies item_of(m, (#[trigger] d[i]).0, d[i].1) == Some(
            d[i].2,
        ) by {
            assert(d[i] == s[i]);
        }
        lemma_none_changed(m, d);
        assert(s[s.len() - 1] == s.last());
    }
}

/// Applying changes leaves no empty group behind.
pub proof fn law_apply_keeps_tidy(m: SnapView, diff: Seq<DiffEntryView>)
    requires
        tidy(m),
    ensures
        tidy(apply_all(m, diff)),
    decreases diff.len(),
{
    if diff.len() > 0 {
        law_apply_keeps_tidy(m, diff.drop_last());
        let a = apply_all(m, diff.drop_last());
        let d = diff.last();
        let r = apply_entry(a, d);
        assert forall|g: Seq<char>| #[trigger] r.contains_key(g) implies r[g] != Map::<
            Seq<char>,
            ValueView,
        >::empty() by {
            if d.kind == ChangeKind::Upsert && d.new_value is Some && g == d.group {
                assert(r[g].contains_key(d.key));
            } else if g != d.group {
                assert(a.contains_key(g));
            }
        }
    }
}

/// Where neither configuration has an empty group, the changes from the one to the other lead to the
/// same groups with the same keys.
pub proof fn law_diff_restores_shape(old: SnapView, new: SnapView)
    requires
        finite_snap(old),
        finite_snap(new),
        tidy(old),
        tidy(new),
    ensures
        apply_all(old, diff_of(old, new)).dom() == new.dom(),
        forall|g: Seq<char>| #[trigger]
            new.contains_key(g) ==> apply_all(old, diff_of(old, new))[g].dom() == new[g].dom(),
{
    let r = apply_all(old, diff_of(old, new));
    law_diff_leads_from_old_to_new(old, new);
    law_apply_keeps_tidy(old, diff_of(old, new));
    assert forall|g: Seq<char>| r.contains_key(g) == new.contains_key(g) && (new.contains_key(g)
        ==> r[g].dom() == new[g].dom()) by {
        lemma_same_group(r, new, g);
    }
    assert(r.dom() =~= new.dom());
}

proof fn lemma_same_group(a: SnapView, b: SnapView, g: Seq<char>)
    requires
        tidy(a),
        tidy(b),
        same_items(a, b),
    ensures
        a.contains_key(g) == b.contains_key(g),
        a.contains_key(g) ==> a[g].dom() == b[g].dom(),
{
    if a.contains_key(g) {
        assert(a[g] != Map::<Seq<char>, ValueView>::empty());
        let k = lemma_some_key(a[g]);
        assert(item_of(a, g, k) is Some);
        assert(item_of(b, g, k) is Some);
        assert forall|q: Seq<char>| a[g].contains_key(q) == b[g].contains_key(q) by {
            assert(item_of(a, g, q) is Some == item_of(b, g, q) is Some);
        }
        assert(a[g].dom() =~= b[g].dom());
    } else if b.contains_key(g) {
        let k = lemma_some_key(b[g]);
        assert(item_of(b, g, k) is Some);
        assert(item_of(a, g, k) is None);
    }
}

proof fn lemma_some_key(m: Map<Seq<char>, ValueView>) -> (k: Seq<char>)
    requires
        m != Map::<Seq<char>, ValueView>::empty(),
    ensures
        m.contains_key(k),
{
    if forall|k: Seq<char>| !m.contains_key(k) {
        assert(m =~= Map::empty());
    }
    choose|k: Seq<char>| m.contains_key(k)
}

} // verus!
