//! The order of the audit trail and of its keys.
use vstd::prelude::*;

use crate::gather::gather;
use crate::keys::{K_AUDIT, k_audit, padded};
use crate::laws::paths::lemma_prefix_of_sum;
use crate::laws::pruning::lemma_gather_has;
use crate::laws::sound::{in_place, sound};
use crate::laws::upkeep::{lemma_gather_member, lemma_padded_value, lemma_sorted_member};
use crate::model::{AuditEntry, AuditEntryView, EntryView};
use crate::ordmap::{has_row, lemma_listing_exists};
use crate::sort::{Ranked, law_sorting_orders, lemma_sorted_multiset, sorted};
use crate::step::{audit, row_audit};
use crate::store::{State, scan, under};
use crate::text::{
    all_digits, dec, dec_value, is_digit, lemma_dec_value, lemma_text_order, text_less,
};

verus! {

/// Ten to the power of `n`.
pub open spec fn ten_to(n: nat) -> nat
    decreases n,
{
    if n == 0 {
        1
    } else {
        10 * ten_to((n - 1) as nat)
    }
}

/// A number below ten to the power of `d` has at most `d` digits.
proof fn lemma_dec_len(n: nat, d: nat)
    requires
        d >= 1,
        n < ten_to(d),
    ensures
        dec(n).len() <= d,
    decreases d,
{
    if n >= 10 {
        assert(d >= 2) by {
            reveal_with_fuel(ten_to, 2);
        }
        assert(n / 10 < ten_to((d - 1) as nat)) by (nonlinear_arith)
            requires
                n < 10 * ten_to((d - 1) as nat),
        ;
        lemma_dec_len(n / 10, (d - 1) as nat);
    }
}

/// What stands in front of two texts does not change their order.
proof fn lemma_less_behind(p: Seq<char>, a: Seq<char>, b: Seq<char>)
    ensures
        text_less(p + a, p + b) == text_less(a, b),
    decreases p.len(),
{
    reveal(text_less);
    if p.len() == 0 {
        assert(p + a =~= a);
        assert(p + b =~= b);
    } else {
        assert((p + a).skip(1) =~= p.skip(1) + a);
        assert((p + b).skip(1) =~= p.skip(1) + b);
        lemma_less_behind(p.skip(1), a, b);
    }
}

/// Of two texts of one length, all but the last character decide first.
proof fn lemma_less_by_last(a: Seq<char>, b: Seq<char>)
    requires
        a.len() == b.len(),
        a.len() > 0,
    ensures
        text_less(a, b) == (text_less(a.drop_last(), b.drop_last()) || (a.drop_last() == b.drop_last()
            && a.last() < b.last())),
    decreases a.len(),
{
    reveal_with_fuel(text_less, 2);
    let x = a.drop_last();
    let y = b.drop_last();
    if a.len() == 1 {
        assert(a.skip(1) =~= Seq::empty());
        assert(b.skip(1) =~= Seq::empty());
        assert(x =~= y);
        assert(!text_less(b.skip(1), b.skip(1)));
        assert(!text_less(y, y));
    } else {
        assert(x[0] == a[0] && y[0] == b[0]);
        if a[0] == b[0] {
            lemma_less_by_last(a.skip(1), b.skip(1));
            assert(a.skip(1).last() == a.last() && b.skip(1).last() == b.last());
            assert(a.skip(1).drop_last() =~= x.skip(1));
            assert(b.skip(1).drop_last() =~= y.skip(1));
            if x.skip(1) == y.skip(1) {
                assert(x =~= seq![x[0]] + x.skip(1));
                assert(y =~= seq![y[0]] + y.skip(1));
            }
        }
    }
}

/// Digits of one length are in the order of the numbers that they write.
proof fn lemma_digits_order(a: Seq<char>, b: Seq<char>)
    requires
        a.len() == b.len(),
        all_digits(a),
        all_digits(b),
    ensures
        text_less(a, b) == (dec_value(a) < dec_value(b)),
        a == b || dec_value(a) != dec_value(b),
    decreases a.len(),
{
    if a.len() == 0 {
        reveal(text_less);
        assert(a =~= b);
    } else {
        let x = a.drop_last();
        let y = b.drop_last();
        assert(all_digits(x)) by {
            assert forall|i: int| 0 <= i < x.len() implies is_digit(#[trigger] x[i]) by {
                assert(a[i] == x[i]);
            }
        }
        assert(all_digits(y)) by {
            assert forall|i: int| 0 <= i < y.len() implies is_digit(#[trigger] y[i]) by {
                assert(b[i] == y[i]);
            }
        }
        lemma_digits_order(x, y);
        lemma_less_by_last(a, b);
        assert(is_digit(a[a.len() - 1]) && is_digit(b[b.len() - 1]));
        assert(a =~= x.push(a.last()));
        assert(b =~= y.push(b.last()));
    }
}

/// A number is written with 20 digits.
pub proof fn lemma_padded_digits(n: u64)
    ensures
        padded(n as nat).len() == 20,
        all_digits(padded(n as nat)),
        dec_value(padded(n as nat)) == n,
{
    assert(ten_to(20) == 100_000_000_000_000_000_000) by {
        reveal_with_fuel(ten_to, 21);
    }
    lemma_dec_len(n as nat, 20);
    lemma_dec_value(n as nat);
    lemma_padded_value(n as nat);
    let p = padded(n as nat);
    assert forall|i: int| 0 <= i < p.len() implies is_digit(#[trigger] p[i]) by {
        let z = 20 - dec(n as nat).len();
        if i >= z {
            assert(p[i] == dec(n as nat)[i - z]);
        }
    }
}

/// The keys of the audit trail have one length, and stand in the order of the numbers of the entries.
pub proof fn law_audit_keys_keep_order(a: u64, b: u64)
    ensures
        a < b <==> text_less(k_audit(a), k_audit(b)),
        k_audit(a).len() == 26,
{
    reveal_strlit("audit/");
    lemma_padded_digits(a);
    lemma_padded_digits(b);
    lemma_less_behind(K_AUDIT@, padded(a as nat), padded(b as nat));
    lemma_digits_order(padded(a as nat), padded(b as nat));
}

/// Parts that share nothing and repeat nothing make a sequence that repeats nothing.
proof fn lemma_gather_distinct<T>(n: nat, f: spec_fn(int) -> Seq<T>)
    requires
        forall|i: int| 0 <= i < n ==> (#[trigger] f(i)).no_duplicates(),
        forall|i: int, j: int, x: T|
            0 <= i < j < n && #[trigger] f(i).contains(x) ==> !(#[trigger] f(j).contains(x)),
    ensures
        gather(n, f).no_duplicates(),
    decreases n,
{
    if n > 0 {
        let front = gather((n - 1) as nat, f);
        let part = f(n - 1);
        let all = gather(n, f);
        lemma_gather_distinct((n - 1) as nat, f);
        assert forall|i: int, j: int| 0 <= i < j < all.len() implies all[i] != all[j] by {
            if i < front.len() <= j {
                assert(front.contains(front[i]));
                let m = lemma_gather_member((n - 1) as nat, f, front[i]);
                assert(part[j - front.len()] == all[j]);
                assert(f(m).contains(front[i]));
                assert(!part.contains(front[i]));
            } else if i >= front.len() {
                assert(part[i - front.len()] == all[i]);
                assert(part[j - front.len()] == all[j]);
            }
        }
    }
}

/// Sorting repeats nothing that was not repeated before.
proof fn lemma_sorted_distinct<T: Ranked>(s: Seq<T::V>)
    requires
        s.no_duplicates(),
    ensures
        sorted::<T>(s).no_duplicates(),
{
    lemma_sorted_multiset::<T>(s);
    s.lemma_multiset_has_no_duplicates();
    sorted::<T>(s).lemma_multiset_has_no_duplicates_conv();
}

/// The audit trail is read with the newest entry first: the numbers fall strictly.
pub proof fn law_audit_is_read_newest_first(
    s: State,
    action: Option<Seq<char>>,
    project: Option<Seq<char>>,
    since: Option<i64>,
    limit: nat,
)
    requires
        s.dom().finite(),
        sound(s),
    ensures
        ({
            let list = audit(s, action, project, since, limit);
            forall|i: int, j: int| 0 <= i < j < list.len() ==> (#[trigger] list[i]).seq > (
            #[trigger] list[j]).seq
        }),
{
    let m = under(s, K_AUDIT@);
    let rows = scan(s, K_AUDIT@);
    assert(m.dom().subset_of(s.dom()));
    vstd::set_lib::lemma_set_subset_finite(s.dom(), m.dom());
    lemma_listing_exists(m);
    let f = |i: int| row_audit(rows[i], action, project, since);
    let found = gather(rows.len(), f);
    let all = sorted::<AuditEntry>(found);
    assert forall|i: int, x: AuditEntryView|
        0 <= i < rows.len() && #[trigger] f(i).contains(x) implies rows[i].0 == k_audit(x.seq)
        && s[k_audit(x.seq)] == EntryView::Audit(x) by {
        assert(m.contains_key(rows[i].0));
        assert(in_place(rows[i].0, s[rows[i].0]));
    }
    assert forall|i: int, j: int, x: AuditEntryView|
        0 <= i < j < rows.len() && #[trigger] f(i).contains(x) implies !(#[trigger] f(j).contains(x)) by {
        if f(j).contains(x) {
            assert(rows[i].0 == rows[j].0);
            lemma_text_order(rows[i].0, rows[j].0, rows[j].0);
        }
    }
    lemma_gather_distinct(rows.len(), f);
    lemma_sorted_distinct::<AuditEntry>(found);
    law_sorting_orders::<AuditEntry>(found);
    assert forall|i: int, j: int| 0 <= i < j < all.len() implies (#[trigger] all[i]).seq > (
    #[trigger] all[j]).seq by {
        lemma_sorted_member::<AuditEntry>(found, i);
        lemma_sorted_member::<AuditEntry>(found, j);
        let a = lemma_gather_member(rows.len(), f, all[i]);
        let b = lemma_gather_member(rows.len(), f, all[j]);
        assert(f(a).contains(all[i]) && f(b).contains(all[j]));
        assert(all[i] != all[j]);
    }
}

/// Whether an entry is asked for.
pub open spec fn is_asked_for(
    e: AuditEntryView,
    action: Option<Seq<char>>,
    project: Option<Seq<char>>,
    since: Option<i64>,
) -> bool {
    &&& action matches Some(a) ==> e.action == a
    &&& project matches Some(p) ==> e.project == Some(p)
    &&& since matches Some(t) ==> t <= e.ts
}

/// Whether the audit trail has the entry.
pub open spec fn is_logged(s: State, e: AuditEntryView) -> bool {
    s.contains_key(k_audit(e.seq)) && s[k_audit(e.seq)] == EntryView::Audit(e)
}

proof fn lemma_found(
    s: State,
    action: Option<Seq<char>>,
    project: Option<Seq<char>>,
    since: Option<i64>,
    e: AuditEntryView,
)
    requires
        s.dom().finite(),
        sound(s),
    ensures
        ({
            let rows = scan(s, K_AUDIT@);
            let all = sorted::<AuditEntry>(
                gather(rows.len(), |i: int| row_audit(rows[i], action, project, since)),
            );
            all.contains(e) <==> is_logged(s, e) && is_asked_for(e, action, project, since)
        }),
{
    broadcast use vstd::seq_lib::group_to_multiset_ensures;

    let m = under(s, K_AUDIT@);
    let rows = scan(s, K_AUDIT@);
    assert(m.dom().subset_of(s.dom()));
    vstd::set_lib::lemma_set_subset_finite(s.dom(), m.dom());
    lemma_listing_exists(m);
    let f = |i: int| row_audit(rows[i], action, project, since);
    let found = gather(rows.len(), f);
    let all = sorted::<AuditEntry>(found);
    lemma_sorted_multiset::<AuditEntry>(found);
    if all.contains(e) {
        let i = choose|i: int| 0 <= i < all.len() && all[i] == e;
        lemma_sorted_member::<AuditEntry>(found, i);
        let n = lemma_gather_member(rows.len(), f, e);
        assert(m.contains_key(rows[n].0));
        assert(in_place(rows[n].0, s[rows[n].0]));
    }
    if is_logged(s, e) && is_asked_for(e, action, project, since) {
        let k = k_audit(e.seq);
        lemma_prefix_of_sum(K_AUDIT@, padded(e.seq as nat));
        assert(m.contains_key(k));
        assert(has_row(rows, k));
        let n = choose|n: int| 0 <= n < rows.len() && #[trigger] rows[n].0 == k;
        assert(m.contains_key(rows[n].0));
        assert(k.skip(K_AUDIT@.len() as int) =~= padded(e.seq as nat));
        lemma_padded_digits(e.seq);
        lemma_padded_value(e.seq as nat);
        assert(f(n) == seq![e]);
        assert(f(n)[0] == e);
        lemma_gather_has(rows.len(), f, n, e);
        assert(found.to_multiset().count(e) > 0);
        assert(all.to_multiset().count(e) > 0);
    }
}

/// Reading the audit trail gives the entries that are asked for and no others: all of them, or as many of the
/// newest as the limit allows.
pub proof fn law_audit_gives_what_is_asked_for(
    s: State,
    action: Option<Seq<char>>,
    project: Option<Seq<char>>,
    since: Option<i64>,
    limit: nat,
    e: AuditEntryView,
)
    requires
        s.dom().finite(),
        sound(s),
    ensures
        ({
            let list = audit(s, action, project, since, limit);
            &&& list.len() <= limit
            &&& list.contains(e) ==> is_logged(s, e) && is_asked_for(e, action, project, since)
            &&& is_logged(s, e) && is_asked_for(e, action, project, since) && !list.contains(e)
                ==> list.len() == limit && forall|i: int|
                0 <= i < list.len() ==> (#[trigger] list[i]).seq > e.seq
        }),
{
    let rows = scan(s, K_AUDIT@);
    let f = |i: int| row_audit(rows[i], action, project, since);
    let all = sorted::<AuditEntry>(gather(rows.len(), f));
    let list = audit(s, action, project, since, limit);
    lemma_found(s, action, project, since, e);
    law_audit_is_read_newest_first(s, action, project, since, all.len());
    assert(audit(s, action, project, since, all.len()) == all);
    if list.contains(e) {
        let i = choose|i: int| 0 <= i < list.len() && list[i] == e;
        assert(all[i] == e);
    }
    if all.contains(e) && !list.contains(e) {
        let n = choose|n: int| 0 <= n < all.len() && all[n] == e;
        if all.len() <= limit {
            assert(list[n] == e);
        } else {
            if n < limit {
                assert(list[n] == e);
            }
            assert forall|i: int| 0 <= i < list.len() implies (#[trigger] list[i]).seq > e.seq by {
                assert(list[i] == all[i]);
                assert(all[i].seq > all[n].seq);
            }
        }
    }
}

} // verus!
