//! What the events of a command say: which versions were made, and what is new in each.
use vstd::prelude::*;

use crate::diff::{
    Item, apply_entry, changed, deletions, diff_of, finite_snap, group_items, item_of, items,
    lemma_items_member, rows_items, upserts,
};
use crate::model::{ChangeKind, DiffEntryView, SnapView, ValueView};
use crate::ordmap::{ascending, has_row, lemma_listing_exists, listing};
use crate::text::{lemma_text_order, text_less};

verus! {

/// Whether a configuration has the item.
pub open spec fn has_value(m: SnapView, g: Seq<char>, k: Seq<char>) -> bool {
    m.contains_key(g) && m[g].contains_key(k)
}

/// The texts of zero.
pub open spec fn is_nought(t: Seq<char>) -> bool {
    t == "0.0"@ || t == "-0.0"@
}

/// The values are the same; a floating-point zero has no sign.
pub open spec fn alike(a: ValueView, b: ValueView) -> bool {
    a == b || (a matches ValueView::Float(x) && (b matches ValueView::Float(y) && is_nought(x)
        && is_nought(y)))
}

/// Both configurations have the item, with the same value.
pub open spec fn unchanged(old: SnapView, new: SnapView, g: Seq<char>, k: Seq<char>) -> bool {
    has_value(old, g, k) && has_value(new, g, k) && alike(old[g][k], new[g][k])
}

/// Whether a change is what happened to its item between the two configurations.
pub open spec fn is_true(d: DiffEntryView, old: SnapView, new: SnapView) -> bool {
    match d.kind {
        ChangeKind::Upsert => {
            &&& has_value(new, d.group, d.key)
            &&& !unchanged(old, new, d.group, d.key)
            &&& d.new_value matches Some(v) && alike(v, new[d.group][d.key])
        },
        ChangeKind::Delete => {
            &&& has_value(old, d.group, d.key)
            &&& !has_value(new, d.group, d.key)
            &&& d.new_value is None
        },
    }
}

/// Whether one of the changes is about the item.
pub open spec fn is_named(changes: Seq<DiffEntryView>, g: Seq<char>, k: Seq<char>) -> bool {
    exists|i: int| 0 <= i < changes.len() && (#[trigger] changes[i]).group == g && changes[i].key == k
}

/// The changes say what happened between the two configurations: all of it, nothing else, and nothing
/// twice.
pub open spec fn tells(changes: Seq<DiffEntryView>, old: SnapView, new: SnapView) -> bool {
    &&& forall|i: int| 0 <= i < changes.len() ==> is_true(#[trigger] changes[i], old, new)
    &&& forall|g: Seq<char>, k: Seq<char>|
        #![trigger is_named(changes, g, k)]
        (has_value(old, g, k) || has_value(new, g, k)) && !unchanged(old, new, g, k) ==> is_named(changes, g, k)
    &&& forall|i: int, j: int|
        0 <= i < j < changes.len() ==> (#[trigger] changes[i]).group != (#[trigger] changes[j]).group
            || changes[i].key != changes[j].key
}

// ---------------------------------------------------------------------------------------------
// The difference of two configurations
// ---------------------------------------------------------------------------------------------

/// No item is there twice.
spec fn are_apart(s: Seq<Item>) -> bool {
    forall|i: int, j: int|
        0 <= i < j < s.len() ==> (#[trigger] s[i]).0 != (#[trigger] s[j]).0 || s[i].1 != s[j].1
}

proof fn lemma_rows_apart(rows: Seq<(Seq<char>, Map<Seq<char>, ValueView>)>)
    requires
        ascending(rows),
        forall|i: int| 0 <= i < rows.len() ==> (#[trigger] rows[i]).1.dom().finite(),
    ensures
        are_apart(rows_items(rows)),
        forall|i: int|
            0 <= i < rows_items(rows).len() ==> has_row(rows, (#[trigger] rows_items(rows)[i]).0),
    decreases rows.len(),
{
    if rows.len() > 0 {
        let d = rows.drop_last();
        assert forall|i: int| 0 <= i < d.len() implies (#[trigger] d[i]).1.dom().finite() by {
            assert(d[i] == rows[i]);
        }
        assert forall|i: int, j: int| 0 <= i < j < d.len() implies text_less(
            #[trigger] d[i].0,
            #[trigger] d[j].0,
        ) by {
            assert(d[i] == rows[i] && d[j] == rows[j]);
        }
        lemma_rows_apart(d);
        let last = rows.last();
        lemma_listing_exists(last.1);
        let a = rows_items(d);
        let b = group_items(last.0, listing(last.1));
        let all = rows_items(rows);
        assert(all == a + b);
        assert forall|i: int, j: int| 0 <= i < j < all.len() implies (#[trigger] all[i]).0 != (
        #[trigger] all[j]).0 || all[i].1 != all[j].1 by {
            if j < a.len() {
                assert(all[i] == a[i] && all[j] == a[j]);
            } else if i < a.len() {
                assert(all[i] == a[i]);
                assert(has_row(d, a[i].0));
                let n = choose|n: int| 0 <= n < d.len() && #[trigger] d[n].0 == a[i].0;
                assert(rows[n].0 == d[n].0);
                assert(text_less(rows[n].0, rows[rows.len() - 1].0));
                lemma_text_order(last.0, last.0, last.0);
            } else {
                let x = listing(last.1);
                assert(text_less(x[i - a.len()].0, x[j - a.len()].0));
                lemma_text_order(x[i - a.len()].0, x[i - a.len()].0, x[i - a.len()].0);
            }
        }
        assert forall|i: int| 0 <= i < all.len() implies has_row(rows, (#[trigger] all[i]).0) by {
            if i < a.len() {
                assert(all[i] == a[i]);
                assert(has_row(d, a[i].0));
                let n = choose|n: int| 0 <= n < d.len() && #[trigger] d[n].0 == a[i].0;
                assert(rows[n].0 == a[i].0);
            } else {
                assert(rows[rows.len() - 1].0 == all[i].0);
            }
        }
    }
}

proof fn lemma_items_apart(m: SnapView)
    requires
        finite_snap(m),
    ensures
        are_apart(items(m)),
{
    lemma_listing_exists(m);
    let rows = listing(m);
    assert forall|i: int| 0 <= i < rows.len() implies (#[trigger] rows[i]).1.dom().finite() by {
        assert(m.contains_key(rows[i].0));
    }
    lemma_rows_apart(rows);
}

/// The upserts are those of the items that changed, each once.
proof fn lemma_upserts(old: SnapView, s: Seq<Item>)
    requires
        are_apart(s),
    ensures
        ({
            let ups = upserts(old, s);
            &&& forall|i: int| #![trigger ups[i]] 0 <= i < ups.len() ==> {
                &&& ups[i].kind == ChangeKind::Upsert
                &&& ups[i].new_value is Some
                &&& s.contains((ups[i].group, ups[i].key, ups[i].new_value->0))
                &&& changed(old, (ups[i].group, ups[i].key, ups[i].new_value->0))
            }
            &&& forall|n: int| #![trigger s[n]]
                0 <= n < s.len() && changed(old, s[n]) ==> is_named(ups, s[n].0, s[n].1)
            &&& forall|i: int, j: int|
                0 <= i < j < ups.len() ==> (#[trigger] ups[i]).group != (#[trigger] ups[j]).group
                    || ups[i].key != ups[j].key
        }),
    decreases s.len(),
{
    if s.len() > 0 {
        let d = s.drop_last();
        let x = s.last();
        assert forall|i: int, j: int| 0 <= i < j < d.len() implies (#[trigger] d[i]).0 != (
        #[trigger] d[j]).0 || d[i].1 != d[j].1 by {
            assert(d[i] == s[i] && d[j] == s[j]);
        }
        lemma_upserts(old, d);
        let before = upserts(old, d);
        let ups = upserts(old, s);
        assert forall|i: int| #![trigger ups[i]] 0 <= i < ups.len() implies {
            &&& ups[i].kind == ChangeKind::Upsert
            &&& ups[i].new_value is Some
            &&& s.contains((ups[i].group, ups[i].key, ups[i].new_value->0))
            &&& changed(old, (ups[i].group, ups[i].key, ups[i].new_value->0))
        } by {
            if i < before.len() {
                assert(ups[i] == before[i]);
                let y = (before[i].group, before[i].key, before[i].new_value->0);
                assert(d.contains(y));
                let n = choose|n: int| 0 <= n < d.len() && d[n] == y;
                assert(s[n] == y);
            } else {
                assert(s[s.len() - 1] == x);
            }
        }
        assert forall|n: int| #![trigger s[n]] 0 <= n < s.len() && changed(old, s[n]) implies is_named(
            ups,
            s[n].0,
            s[n].1,
        ) by {
            if n < d.len() {
                assert(d[n] == s[n]);
                assert(is_named(before, d[n].0, d[n].1));
                let i = choose|i: int|
                    0 <= i < before.len() && (#[trigger] before[i]).group == d[n].0 && before[i].key
                        == d[n].1;
                assert(ups[i] == before[i]);
            } else {
                assert(ups[ups.len() - 1].group == x.0);
            }
        }
        assert forall|i: int, j: int| 0 <= i < j < ups.len() implies (#[trigger] ups[i]).group != (
        #[trigger] ups[j]).group || ups[i].key != ups[j].key by {
            assert(ups[i] == before[i]);
            if j < before.len() {
                assert(ups[j] == before[j]);
            } else {
                let y = (before[i].group, before[i].key, before[i].new_value->0);
                assert(d.contains(y));
                let n = choose|n: int| 0 <= n < d.len() && d[n] == y;
                assert(s[n] == y && s[s.len() - 1] == x);
            }
        }
    }
}

/// The deletions are those of the items that are gone, each once.
proof fn lemma_deletions(new: SnapView, s: Seq<Item>)
    requires
        are_apart(s),
    ensures
        ({
            let dels = deletions(new, s);
            &&& forall|i: int| #![trigger dels[i]] 0 <= i < dels.len() ==> {
                &&& dels[i].kind == ChangeKind::Delete
                &&& dels[i].new_value is None
                &&& exists|n: int|
                    0 <= n < s.len() && (#[trigger] s[n]).0 == dels[i].group && s[n].1 == dels[i].key
                &&& item_of(new, dels[i].group, dels[i].key) is None
            }
            &&& forall|n: int| #![trigger s[n]]
                0 <= n < s.len() && item_of(new, s[n].0, s[n].1) is None ==> is_named(
                    dels,
                    s[n].0,
                    s[n].1,
                )
            &&& forall|i: int, j: int|
                0 <= i < j < dels.len() ==> (#[trigger] dels[i]).group != (#[trigger] dels[j]).group
                    || dels[i].key != dels[j].key
        }),
    decreases s.len(),
{
    if s.len() > 0 {
        let d = s.drop_last();
        let x = s.last();
        assert forall|i: int, j: int| 0 <= i < j < d.len() implies (#[trigger] d[i]).0 != (
        #[trigger] d[j]).0 || d[i].1 != d[j].1 by {
            assert(d[i] == s[i] && d[j] == s[j]);
        }
        lemma_deletions(new, d);
        let before = deletions(new, d);
        let dels = deletions(new, s);
        assert forall|i: int| #![trigger dels[i]] 0 <= i < dels.len() implies {
            &&& dels[i].kind == ChangeKind::Delete
            &&& dels[i].new_value is None
            &&& exists|n: int|
                0 <= n < s.len() && (#[trigger] s[n]).0 == dels[i].group && s[n].1 == dels[i].key
            &&& item_of(new, dels[i].group, dels[i].key) is None
        } by {
            if i < before.len() {
                assert(dels[i] == before[i]);
                let n = choose|n: int|
                    0 <= n < d.len() && (#[trigger] d[n]).0 == before[i].group && d[n].1
                        == before[i].key;
                assert(s[n] == d[n]);
            } else {
                assert(s[s.len() - 1] == x);
            }
        }
        assert forall|n: int| #![trigger s[n]]
            0 <= n < s.len() && item_of(new, s[n].0, s[n].1) is None implies is_named(
            dels,
            s[n].0,
            s[n].1,
        ) by {
            if n < d.len() {
                assert(d[n] == s[n]);
                assert(is_named(before, d[n].0, d[n].1));
                let i = choose|i: int|
                    0 <= i < before.len() && (#[trigger] before[i]).group == d[n].0 && before[i].key
                        == d[n].1;
                assert(dels[i] == before[i]);
            } else {
                assert(dels[dels.len() - 1].group == x.0);
            }
        }
        assert forall|i: int, j: int| 0 <= i < j < dels.len() implies (#[trigger] dels[i]).group != (
        #[trigger] dels[j]).group || dels[i].key != dels[j].key by {
            assert(dels[i] == before[i]);
            if j < before.len() {
                assert(dels[j] == before[j]);
            } else {
                let n = choose|n: int|
                    0 <= n < d.len() && (#[trigger] d[n]).0 == before[i].group && d[n].1
                        == before[i].key;
                assert(s[n] == d[n] && s[s.len() - 1] == x);
            }
        }
    }
}

/// The difference of two configurations says what happened between them: an upsert, with the new value,
/// for each item that is new or has another value, a deletion for each that is gone, and nothing else.
pub proof fn law_diff_tells_what_changed(old: SnapView, new: SnapView)
    requires
        finite_snap(old),
        finite_snap(new),
    ensures
        tells(diff_of(old, new), old, new),
{
    lemma_items_apart(old);
    lemma_items_apart(new);
    lemma_upserts(old, items(new));
    lemma_deletions(new, items(old));
    let ups = upserts(old, items(new));
    let dels = deletions(new, items(old));
    let all = diff_of(old, new);
    assert(all == ups + dels);
    assert forall|i: int| 0 <= i < all.len() implies is_true(#[trigger] all[i], old, new) by {
        let d = all[i];
        if i < ups.len() {
            assert(d == ups[i]);
            lemma_items_member(new, d.group, d.key, d.new_value->0);
        } else {
            assert(d == dels[i - ups.len()]);
            let n = choose|n: int|
                0 <= n < items(old).len() && (#[trigger] items(old)[n]).0 == d.group && items(old)[n].1
                    == d.key;
            assert(items(old).contains(items(old)[n]));
            lemma_items_member(old, d.group, d.key, items(old)[n].2);
        }
    }
    assert forall|g: Seq<char>, k: Seq<char>|
        #![trigger is_named(all, g, k)]
        (has_value(old, g, k) || has_value(new, g, k)) && !unchanged(old, new, g, k) implies is_named(all, g, k) by {
        if has_value(new, g, k) {
            let x = (g, k, new[g][k]);
            lemma_items_member(new, g, k, new[g][k]);
            let n = choose|n: int| 0 <= n < items(new).len() && items(new)[n] == x;
            assert(changed(old, items(new)[n]));
            assert(is_named(ups, g, k));
            let i = choose|i: int| 0 <= i < ups.len() && (#[trigger] ups[i]).group == g && ups[i].key == k;
            assert(all[i] == ups[i]);
        } else {
            let x = (g, k, old[g][k]);
            lemma_items_member(old, g, k, old[g][k]);
            let n = choose|n: int| 0 <= n < items(old).len() && items(old)[n] == x;
            assert(item_of(new, items(old)[n].0, items(old)[n].1) is None);
            assert(is_named(dels, g, k));
            let i = choose|i: int| 0 <= i < dels.len() && (#[trigger] dels[i]).group == g && dels[i].key == k;
            assert(all[ups.len() + i] == dels[i]);
        }
    }
    assert forall|i: int, j: int| 0 <= i < j < all.len() implies (#[trigger] all[i]).group != (
    #[trigger] all[j]).group || all[i].key != all[j].key by {
        if j < ups.len() {
            assert(all[i] == ups[i] && all[j] == ups[j]);
        } else if i < ups.len() {
            assert(all[i] == ups[i] && all[j] == dels[j - ups.len()]);
            assert(is_true(all[i], old, new) && is_true(all[j], old, new));
        } else {
            assert(all[i] == dels[i - ups.len()] && all[j] == dels[j - ups.len()]);
        }
    }
}

/// A change makes of its item what it says, and leaves all others alone.
pub proof fn law_changes_are_applied(m: SnapView, d: DiffEntryView, g: Seq<char>, k: Seq<char>)
    ensures
        ({
            let r = apply_entry(m, d);
            let own = g == d.group && k == d.key;
            &&& own && d.kind == ChangeKind::Upsert && d.new_value is Some ==> has_value(r, g, k) && r[g][k]
                == d.new_value->0
            &&& own && d.kind == ChangeKind::Delete ==> !has_value(r, g, k)
            &&& !own || (d.kind == ChangeKind::Upsert && d.new_value is None) ==> has_value(r, g, k)
                == has_value(m, g, k) && (has_value(m, g, k) ==> r[g][k] == m[g][k])
        }),
{
    if d.kind == ChangeKind::Delete && m.contains_key(d.group) && m[d.group].remove(d.key) == Map::<
        Seq<char>,
        ValueView,
    >::empty() && g == d.group && k != d.key && m[g].contains_key(k) {
        assert(m[d.group].remove(d.key).contains_key(k));
    }
}

} // verus!
