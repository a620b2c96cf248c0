//! What pruning the versions of a branch counts, and what it leaves alone.
use vstd::prelude::*;

use crate::gather::gather;
use crate::keys::{
    K_DIFF, K_SNAP, K_VERSION, k_branch_prefix, k_branch_state, k_diff, k_snapshot, k_struct,
    k_version, k_versions_prefix,
};
use crate::laws::paths::{
    is_part, law_version_keys_differ, lemma_branch_keys, lemma_branch_parts, lemma_parts_around,
    lemma_project_parts, lemma_struct_parts, parts,
};
use crate::laws::sound::{branch_at, in_place, lemma_base, same_at, same_version, sound};
use crate::laws::soundness::lemma_config_same;
use crate::laws::steps::lemma_branch_names;
use crate::laws::upkeep::{
    law_pruning_keeps_recent_versions, lemma_gather_member, lemma_history_numbers,
    lemma_not_pruned, lemma_sorted_member,
};
use crate::model::{EntryView, VersionRecord, VersionRecordView};
use crate::ordmap::{has_row, is_listing, lemma_listing_drop_last, lemma_listing_exists};
use crate::sort::{law_sorting_orders, lemma_sorted_multiset};
use crate::step::{config, history, row_version, snapshot};
use crate::store::{State, scan, under};
use crate::text::{ends_with, lemma_split_single};
use crate::transition::{
    content_goes, pivot, pruned_key, record_goes, records_gone, version_owns, versions_pruned,
};

verus! {

/// Whether a row holds the record of a version.
pub open spec fn is_record(k: Seq<char>, e: EntryView) -> bool {
    !ends_with(k, K_SNAP@) && !ends_with(k, K_DIFF@) && e is Version
}

/// The keys of the records in a state.
pub open spec fn record_keys(m: State) -> Set<Seq<char>> {
    m.dom().filter(|k: Seq<char>| is_record(k, m[k]))
}

/// A listing gives as many records as the state has.
proof fn lemma_record_count(m: State, rows: Seq<(Seq<char>, EntryView)>, f: spec_fn(int) -> Seq<
    VersionRecordView,
>)
    requires
        is_listing(m, rows),
        forall|i: int| 0 <= i < rows.len() ==> #[trigger] f(i) == row_version(rows[i]),
    ensures
        record_keys(m).finite(),
        gather(rows.len(), f).len() == record_keys(m).len(),
    decreases rows.len(),
{
    if rows.len() == 0 {
        assert forall|k: Seq<char>| !record_keys(m).contains(k) by {
            if m.contains_key(k) {
                assert(has_row(rows, k));
            }
        }
        assert(record_keys(m) =~= Set::empty());
    } else {
        let x = rows.last();
        let d = rows.drop_last();
        let n = m.remove(x.0);
        lemma_listing_drop_last(m, rows);
        assert forall|i: int| 0 <= i < d.len() implies #[trigger] f(i) == row_version(d[i]) by {
            assert(d[i] == rows[i]);
        }
        lemma_record_count(n, d, f);
        assert(m.contains_key(rows[rows.len() - 1].0));
        assert(m[x.0] == x.1);
        assert(f(rows.len() - 1) == row_version(x));
        if is_record(x.0, x.1) {
            assert(record_keys(m) =~= record_keys(n).insert(x.0));
            assert(!record_keys(n).contains(x.0));
        } else {
            assert(record_keys(m) =~= record_keys(n));
        }
    }
}

/// What one of the parts holds, the whole holds.
pub proof fn lemma_gather_has<T>(n: nat, f: spec_fn(int) -> Seq<T>, i: int, x: T)
    requires
        0 <= i < n,
        f(i).contains(x),
    ensures
        gather(n, f).contains(x),
    decreases n,
{
    let front = gather((n - 1) as nat, f);
    let all = gather(n, f);
    if i < n - 1 {
        lemma_gather_has((n - 1) as nat, f, i, x);
        let j = choose|j: int| 0 <= j < front.len() && front[j] == x;
        assert(all[j] == x);
    } else {
        let part = f(i);
        let j = choose|j: int| 0 <= j < part.len() && part[j] == x;
        assert(all[front.len() + j] == x);
    }
}

/// The numbers of the records.
pub open spec fn numbers(hist: Seq<VersionRecordView>) -> Seq<u64> {
    hist.map_values(|r: VersionRecordView| r.no)
}

/// The keys of the records of a branch are those of the numbers in its history, each once.
proof fn lemma_history_keys(s: State, id: Seq<char>, branch: Seq<char>)
    requires
        s.dom().finite(),
        sound(s),
        is_part(id),
        is_part(branch),
    ensures
        ({
            let keys = record_keys(under(s, k_versions_prefix(id, branch)));
            let nos = numbers(history(s, id, branch));
            &&& keys.finite()
            &&& keys.len() == history(s, id, branch).len()
            &&& keys == nos.to_set().map(|no: u64| k_version(id, branch, no))
            &&& nos.no_duplicates()
        }),
{
    broadcast use vstd::seq_lib::group_to_multiset_ensures;

    let pre = k_versions_prefix(id, branch);
    let m = under(s, pre);
    let rows = scan(s, pre);
    let hist = history(s, id, branch);
    let nos = numbers(hist);
    let keys = record_keys(m);
    let to_key = |no: u64| k_version(id, branch, no);
    assert(m.dom().subset_of(s.dom()));
    vstd::set_lib::lemma_set_subset_finite(s.dom(), m.dom());
    lemma_listing_exists(m);
    let f = |j: int| row_version(rows[j]);
    let all = gather(rows.len(), f);
    lemma_record_count(m, rows, f);
    lemma_sorted_multiset::<VersionRecord>(all);
    let image = nos.to_set().map(to_key);
    assert forall|k: Seq<char>| keys.contains(k) implies image.contains(k) by {
        assert(has_row(rows, k));
        let i = choose|i: int| 0 <= i < rows.len() && #[trigger] rows[i].0 == k;
        let r = m[k]->Version_0;
        assert(f(i) == seq![r]);
        assert(f(i)[0] == r);
        lemma_gather_has(rows.len(), f, i, r);
        assert(all.to_multiset().count(r) > 0);
        assert(hist.contains(r));
        let j = choose|j: int| 0 <= j < hist.len() && hist[j] == r;
        assert(nos[j] == r.no);
        assert(nos.to_set().contains(r.no));
        lemma_record_key(s, id, branch, k);
        assert(to_key(r.no) == k);
    }
    assert forall|k: Seq<char>| image.contains(k) implies keys.contains(k) by {
        let no = choose|no: u64| nos.to_set().contains(no) && to_key(no) == k;
        let j = choose|j: int| 0 <= j < nos.len() && nos[j] == no;
        lemma_sorted_member::<VersionRecord>(all, j);
        let r = hist[j];
        let i = lemma_gather_member(rows.len(), f, r);
        let x = rows[i].0;
        assert(m.contains_key(x));
        assert(m[x] == EntryView::Version(r));
        lemma_record_key(s, id, branch, x);
        assert(keys.contains(x));
    }
    assert(keys =~= image);
    assert(vstd::relations::injective_on(to_key, nos.to_set())) by {
        assert forall|a: u64, b: u64|
            nos.to_set().contains(a) && nos.to_set().contains(b) && #[trigger] to_key(a)
                == #[trigger] to_key(b) implies a == b by {
            law_version_keys_differ(id, branch, a, id, branch, b, to_key(a));
        }
    }
    vstd::seq_lib::seq_to_set_is_finite(nos);
    vstd::set_lib::lemma_map_size(nos.to_set(), keys, to_key);
    nos.lemma_no_dup_set_cardinality();
}

/// A record that stands below the versions of a branch stands under the key of its number.
proof fn lemma_record_key(s: State, id: Seq<char>, branch: Seq<char>, k: Seq<char>)
    requires
        sound(s),
        is_part(id),
        is_part(branch),
        s.contains_key(k),
        s[k] is Version,
        k_versions_prefix(id, branch).is_prefix_of(k),
    ensures
        k == k_version(id, branch, s[k]->Version_0.no),
{
    let r = s[k]->Version_0;
    let pre = k_versions_prefix(id, branch);
    assert(in_place(k, s[k]));
    let (a, b) = choose|a: Seq<char>, b: Seq<char>|
        is_part(a) && is_part(b) && k == #[trigger] k_version(a, b, r.no);
    let rest = k.skip(pre.len() as int);
    assert(k =~= pre + rest);
    reveal_strlit("/v/");
    reveal_strlit("v");
    assert(K_VERSION@ =~= seq!['/'] + "v"@ + seq!['/']);
    lemma_branch_parts(id, branch);
    lemma_split_single(id, '/');
    lemma_split_single(branch, '/');
    lemma_parts_around(k_branch_prefix(id, branch), "v"@, rest);
    lemma_branch_keys(a, b, r.no);
    let p = parts(k);
    assert(p[1] == id && p[3] == branch);
    assert(p[1] == a && p[3] == b);
}

/// The records that go, counted.
pub proof fn lemma_gone_count(hist: Seq<VersionRecordView>, pivot: u64, active: u64)
    requires
        numbers(hist).no_duplicates(),
    ensures
        ({
            let gone = numbers(hist).to_set().filter(|no: u64| record_goes(pivot, active, no));
            gone.finite() && gone.len() == records_gone(hist, pivot, active)
        }),
    decreases hist.len(),
{
    let goes = |no: u64| record_goes(pivot, active, no);
    let nos = numbers(hist);
    let gone = nos.to_set().filter(goes);
    if hist.len() == 0 {
        assert(gone =~= Set::empty());
    } else {
        let d = hist.drop_last();
        let less = numbers(d);
        let x = hist.last().no;
        assert(less =~= nos.drop_last());
        assert forall|i: int, j: int| 0 <= i < less.len() && 0 <= j < less.len() && i != j implies less[i]
            != less[j] by {
            assert(less[i] == nos[i] && less[j] == nos[j]);
        }
        lemma_gone_count(d, pivot, active);
        let before = less.to_set().filter(goes);
        assert(!less.contains(x)) by {
            if less.contains(x) {
                let i = choose|i: int| 0 <= i < less.len() && less[i] == x;
                assert(nos[i] == nos[nos.len() - 1]);
            }
        }
        assert(nos.to_set() =~= less.to_set().insert(x)) by {
            assert forall|n: u64| nos.to_set().contains(n) implies less.to_set().insert(x).contains(n) by {
                let i = choose|i: int| 0 <= i < nos.len() && nos[i] == n;
                if i < less.len() {
                    assert(less[i] == n);
                }
            }
            assert forall|n: u64| less.to_set().insert(x).contains(n) implies nos.to_set().contains(n) by {
                if n == x {
                    assert(nos[nos.len() - 1] == x);
                } else {
                    let i = choose|i: int| 0 <= i < less.len() && less[i] == n;
                    assert(nos[i] == n);
                }
            }
        }
        if goes(x) {
            assert(gone =~= before.insert(x));
        } else {
            assert(gone =~= before);
        }
    }
}

/// A record of the history of a branch stands under the key of its number.
pub proof fn lemma_history_entry(s: State, id: Seq<char>, branch: Seq<char>, i: int)
    requires
        s.dom().finite(),
        sound(s),
        is_part(id),
        is_part(branch),
        0 <= i < history(s, id, branch).len(),
    ensures
        ({
            let r = history(s, id, branch)[i];
            let k = k_version(id, branch, r.no);
            s.contains_key(k) && s[k] == EntryView::Version(r)
        }),
{
    let pre = k_versions_prefix(id, branch);
    let m = under(s, pre);
    let rows = scan(s, pre);
    assert(m.dom().subset_of(s.dom()));
    vstd::set_lib::lemma_set_subset_finite(s.dom(), m.dom());
    lemma_listing_exists(m);
    let f = |j: int| row_version(rows[j]);
    lemma_sorted_member::<VersionRecord>(gather(rows.len(), f), i);
    let r = history(s, id, branch)[i];
    let j = lemma_gather_member(rows.len(), f, r);
    assert(m.contains_key(rows[j].0));
    assert(s[rows[j].0] == EntryView::Version(r));
    lemma_record_key(s, id, branch, rows[j].0);
}

/// The history of a branch goes from the oldest version to the newest: the numbers rise strictly.
pub proof fn law_history_rises(s: State, id: Seq<char>, branch: Seq<char>)
    requires
        s.dom().finite(),
        sound(s),
        is_part(id),
        is_part(branch),
    ensures
        ({
            let hist = history(s, id, branch);
            forall|i: int, j: int| 0 <= i < j < hist.len() ==> (#[trigger] hist[i]).no < (
            #[trigger] hist[j]).no
        }),
{
    let hist = history(s, id, branch);
    let rows = scan(s, k_versions_prefix(id, branch));
    law_sorting_orders::<VersionRecord>(gather(rows.len(), |i: int| row_version(rows[i])));
    lemma_history_keys(s, id, branch);
    let nos = numbers(hist);
    assert forall|i: int, j: int| 0 <= i < j < hist.len() implies (#[trigger] hist[i]).no < (
    #[trigger] hist[j]).no by {
        assert(nos[i] != nos[j]);
    }
}

/// Pruning keeps the `keep` newest versions of the branch: their records stay in its history, and what is
/// read of them is the same.
pub proof fn law_pruning_keeps_the_newest(
    s: State,
    id: Seq<char>,
    branch: Seq<char>,
    keep: nat,
    i: int,
)
    requires
        s.dom().finite(),
        sound(s),
        versions_pruned(s, id, branch, keep) is Ok,
        0 <= i < history(s, id, branch).len() <= i + keep,
    ensures
        ({
            let t = versions_pruned(s, id, branch, keep)->Ok_0.0;
            let r = history(s, id, branch)[i];
            &&& history(t, id, branch).contains(r)
            &&& config(t, id, branch, r.no) == config(s, id, branch, r.no)
        }),
{
    assert(branch_at(s, id, branch) is Some);
    lemma_branch_names(s, id, branch);
    let t = versions_pruned(s, id, branch, keep)->Ok_0.0;
    let hist = history(s, id, branch);
    let r = hist[i];
    if hist.len() > keep {
        let p = pivot(hist, keep);
        let active = branch_at(s, id, branch)->0.active_version;
        law_history_rises(s, id, branch);
        assert(hist[hist.len() - keep - 1].no < hist[i].no);
        lemma_history_numbers(s, id, branch, hist.len() - keep - 1);
        lemma_base(p as int);
        law_pruning_keeps_recent_versions(s, id, branch, keep);
        let k = k_version(id, branch, r.no);
        let pre = k_versions_prefix(id, branch);
        lemma_history_entry(s, id, branch, i);
        assert(same_at(s, t, k));
        lemma_history_keys(s, id, branch);
        assert(numbers(hist)[i] == r.no);
        assert(record_keys(under(s, pre)).contains(k)) by {
            let f = |no: u64| k_version(id, branch, no);
            assert(numbers(hist).to_set().contains(r.no));
            assert(f(r.no) == k);
        }
        assert(t.dom().subset_of(s.dom()));
        vstd::set_lib::lemma_set_subset_finite(s.dom(), t.dom());
        lemma_history_keys(t, id, branch);
        assert(record_keys(under(t, pre)).contains(k));
        let f = |no: u64| k_version(id, branch, no);
        let nos = numbers(history(t, id, branch));
        let no = choose|no: u64| nos.to_set().contains(no) && #[trigger] f(no) == k;
        law_version_keys_differ(id, branch, no, id, branch, r.no, k);
        let j = choose|j: int| 0 <= j < nos.len() && nos[j] == no;
        lemma_history_entry(t, id, branch, j);
        assert(history(t, id, branch)[j] == r);
        lemma_struct_not_pruned(id, branch, hist, p, active, id);
        lemma_not_pruned(id, branch, hist, p, active, id, branch, 0, k_branch_state(id, branch));
        assert(snapshot(t, id, branch, r.no) == snapshot(s, id, branch, r.no));
    }
}

/// Pruning tells by how many records the history of the branch shrinks.
pub proof fn law_pruning_counts_what_goes(s: State, id: Seq<char>, branch: Seq<char>, keep: nat)
    requires
        s.dom().finite(),
        sound(s),
        versions_pruned(s, id, branch, keep) is Ok,
    ensures
        ({
            let (t, n) = versions_pruned(s, id, branch, keep)->Ok_0;
            history(t, id, branch).len() + n == history(s, id, branch).len()
        }),
{
    assert(branch_at(s, id, branch) is Some);
    lemma_branch_names(s, id, branch);
    let (t, n) = versions_pruned(s, id, branch, keep)->Ok_0;
    let hist = history(s, id, branch);
    if hist.len() > keep {
        law_pruning_keeps_recent_versions(s, id, branch, keep);
        let p = pivot(hist, keep);
        let active = branch_at(s, id, branch)->0.active_version;
        let pre = k_versions_prefix(id, branch);
        let nos = numbers(hist);
        let goes = |no: u64| record_goes(p, active, no);
        let to_key = |no: u64| k_version(id, branch, no);
        let old = record_keys(under(s, pre));
        let new = record_keys(under(t, pre));
        lemma_history_keys(s, id, branch);
        assert(t.dom().subset_of(s.dom()));
        vstd::set_lib::lemma_set_subset_finite(s.dom(), t.dom());
        lemma_history_keys(t, id, branch);
        lemma_gone_count(hist, p, active);
        let gone_nos = nos.to_set().filter(goes);
        let gone = gone_nos.map(to_key);
        assert(vstd::relations::injective_on(to_key, gone_nos)) by {
            assert forall|a: u64, b: u64|
                gone_nos.contains(a) && gone_nos.contains(b) && #[trigger] to_key(a) == #[trigger] to_key(
                    b,
                ) implies a == b by {
                law_version_keys_differ(id, branch, a, id, branch, b, to_key(a));
            }
        }
        vstd::set_lib::lemma_map_size(gone_nos, gone, to_key);
        assert forall|no: u64| #[trigger] nos.to_set().contains(no) implies old.contains(to_key(no)) && (
        pruned_key(id, branch, hist, p, active, to_key(no)) <==> goes(no)) by {
            let k = to_key(no);
            let i = choose|i: int| 0 <= i < nos.len() && nos[i] == no;
            assert(hist[i].no == no);
            if goes(no) {
                assert(version_owns(id, branch, hist[i].no, p, active, k));
            }
            if pruned_key(id, branch, hist, p, active, k) {
                let j = choose|j: int|
                    0 <= j < hist.len() && version_owns(
                        id,
                        branch,
                        (#[trigger] hist[j]).no,
                        p,
                        active,
                        k,
                    );
                law_version_keys_differ(id, branch, no, id, branch, hist[j].no, k);
                law_version_keys_differ(id, branch, no, id, branch, no, k);
            }
        }
        assert forall|k: Seq<char>| old.contains(k) == (new.contains(k) || gone.contains(k)) && !(
        new.contains(k) && gone.contains(k)) by {
            if old.contains(k) {
                let no = choose|no: u64| nos.to_set().contains(no) && to_key(no) == k;
                if goes(no) {
                    assert(gone_nos.contains(no));
                    assert(gone.contains(k));
                } else {
                    assert(t.contains_key(k));
                    assert(under(t, pre).contains_key(k));
                    assert(new.contains(k));
                }
            }
            if new.contains(k) {
                assert(s.contains_key(k));
                assert(old.contains(k));
            }
            if gone.contains(k) {
                let no = choose|no: u64| gone_nos.contains(no) && to_key(no) == k;
                assert(nos.to_set().contains(no));
                assert(!t.contains_key(k));
            }
        }
        assert(old =~= new.union(gone));
        assert(new.disjoint(gone));
        vstd::set_lib::lemma_set_disjoint_lens(new, gone);
    }
}

/// Pruning a branch changes no configuration of another.
pub proof fn law_pruning_spares_others(
    s: State,
    id: Seq<char>,
    branch: Seq<char>,
    keep: nat,
    other: Seq<char>,
    name: Seq<char>,
    version: u64,
)
    requires
        s.dom().finite(),
        sound(s),
        versions_pruned(s, id, branch, keep) is Ok,
        !(other == id && name == branch),
        is_part(other),
        is_part(name),
    ensures
        config(versions_pruned(s, id, branch, keep)->Ok_0.0, other, name, version) == config(
            s,
            other,
            name,
            version,
        ),
{
    assert(branch_at(s, id, branch) is Some);
    lemma_branch_names(s, id, branch);
    let t = versions_pruned(s, id, branch, keep)->Ok_0.0;
    let hist = history(s, id, branch);
    if hist.len() > keep {
        let p = pivot(hist, keep);
        let active = branch_at(s, id, branch)->0.active_version;
        lemma_history_numbers(s, id, branch, hist.len() - keep - 1);
        lemma_not_pruned(id, branch, hist, p, active, other, name, 0, k_branch_state(other, name));
        lemma_struct_not_pruned(id, branch, hist, p, active, other);
        assert(same_at(s, t, k_struct(other)));
        assert(same_at(s, t, k_branch_state(other, name)));
        assert forall|n: u64| #[trigger] same_version(s, t, other, name, n) by {
            lemma_not_pruned(id, branch, hist, p, active, other, name, n, k_version(other, name, n));
            lemma_not_pruned(id, branch, hist, p, active, other, name, n, k_snapshot(other, name, n));
            lemma_not_pruned(id, branch, hist, p, active, other, name, n, k_diff(other, name, n));
        }
        lemma_config_same(s, t, other, name, version);
    }
}

pub proof fn lemma_struct_not_pruned(
    id: Seq<char>,
    branch: Seq<char>,
    hist: Seq<VersionRecordView>,
    p: u64,
    active: u64,
    i: Seq<char>,
)
    requires
        is_part(id) && is_part(branch) && is_part(i),
    ensures
        !pruned_key(id, branch, hist, p, active, k_struct(i)),
{
    let k = k_struct(i);
    lemma_split_single(i, '/');
    lemma_project_parts(i);
    lemma_struct_parts(i);
    assert(parts(k).len() == 3);
    if pruned_key(id, branch, hist, p, active, k) {
        let j = choose|j: int|
            0 <= j < hist.len() && version_owns(id, branch, (#[trigger] hist[j]).no, p, active, k);
        lemma_branch_keys(id, branch, hist[j].no);
    }
}

/// Pruning takes the versions that are not among the `keep` newest, but for the active one and the checkpoint
/// that those are rebuilt from: their records go, and of those before the checkpoint the content too.
pub proof fn law_pruning_takes_the_rest(s: State, id: Seq<char>, branch: Seq<char>, keep: nat, i: int)
    requires
        s.dom().finite(),
        sound(s),
        versions_pruned(s, id, branch, keep) is Ok,
        0 <= i < history(s, id, branch).len() - keep,
    ensures
        ({
            let t = versions_pruned(s, id, branch, keep)->Ok_0.0;
            let hist = history(s, id, branch);
            let no = hist[i].no;
            let oldest = hist[hist.len() - keep - 1].no;
            let base = if oldest < 100 {
                1
            } else {
                oldest - oldest % 100
            };
            &&& no != branch_at(s, id, branch)->0.active_version && no != base ==> !t.contains_key(
                k_version(id, branch, no),
            )
            &&& no != branch_at(s, id, branch)->0.active_version && no < base ==> !t.contains_key(
                k_snapshot(id, branch, no),
            ) && !t.contains_key(k_diff(id, branch, no))
        }),
{
    assert(branch_at(s, id, branch) is Some);
    lemma_branch_names(s, id, branch);
    let hist = history(s, id, branch);
    let p = pivot(hist, keep);
    let active = branch_at(s, id, branch)->0.active_version;
    let t = versions_pruned(s, id, branch, keep)->Ok_0.0;
    law_history_rises(s, id, branch);
    lemma_history_numbers(s, id, branch, hist.len() - keep - 1);
    let no = hist[i].no;
    if i < hist.len() - keep - 1 {
        assert(hist[i].no < hist[hist.len() - keep - 1].no);
    }
    if record_goes(p, active, no) {
        assert(version_owns(id, branch, hist[i].no, p, active, k_version(id, branch, no)));
    }
    if content_goes(p, active, no) {
        assert(version_owns(id, branch, hist[i].no, p, active, k_snapshot(id, branch, no)));
        assert(version_owns(id, branch, hist[i].no, p, active, k_diff(id, branch, no)));
    }
}

} // verus!
