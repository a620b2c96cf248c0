//! What the reads give: every list has what is there and nothing else, and a configuration is the content of
//! a version.
use vstd::prelude::*;

use crate::error::ErrorKind;
use crate::gather::gather;
use crate::keys::{
    K_AUDIT, K_DIFF, K_PA_ACCOUNT, K_PROJECT, K_SESSIONS, K_SNAP, k_audit, k_branch_state,
    k_branches_prefix, k_project, k_refs_prefix, k_struct, k_version, k_versions_prefix, padded,
};
use crate::laws::events::{active_at, content, record_at};
use crate::laws::lifecycle::{project_at, structure_at};
use crate::laws::order::{is_logged, lemma_padded_digits};
use crate::laws::paths::{is_part, lemma_prefix_of_sum};
use crate::laws::projects::{lemma_branches_listed, lemma_has_branch};
use crate::laws::pruning::{lemma_gather_has, lemma_history_entry};
use crate::laws::sound::{branch_at, in_place, same_at, sound};
use crate::laws::upkeep::{lemma_audit_keys, lemma_gather_member, lemma_padded_value};
use crate::model::{
    AdminSessionView, AuditEntryView, EntryView, Project, ProjectAdminAccount,
    ProjectAdminAccountView, ProjectView, RefBindingView, SharedItem, SharedItemView,
    VersionRecord, VersionRecordView,
};
use crate::ordmap::{has_row, lemma_listing_exists};
use crate::sort::{Ranked, law_sorting_orders, lemma_sorted_multiset, sorted};
use crate::step::{
    accounts, admin_sessions, branches, config, has_branch, history, projects, refs, row_account,
    row_project, row_ref, row_session, row_shared, row_version, shared_under,
};
use crate::store::{State, delete_all, scan, under};
use crate::text::{dec, ends_with, is_digit, lemma_dec_value, text_less};
use crate::transition::{audit_excess, audit_numbers, audit_pruned, row_number};

verus! {

/// What is gathered from the rows under a prefix is what the entries under it give.
proof fn lemma_scanned<V>(
    s: State,
    prefix: Seq<char>,
    g: spec_fn(int) -> Seq<V>,
    f: spec_fn(Seq<char>, EntryView) -> Seq<V>,
    x: V,
)
    requires
        s.dom().finite(),
        forall|i: int|
            0 <= i < scan(s, prefix).len() ==> #[trigger] g(i) == f(
                scan(s, prefix)[i].0,
                scan(s, prefix)[i].1,
            ),
    ensures
        gather(scan(s, prefix).len(), g).contains(x) <==> exists|k: Seq<char>|
            s.contains_key(k) && prefix.is_prefix_of(k) && (#[trigger] f(k, s[k])).contains(x),
{
    let m = under(s, prefix);
    let rows = scan(s, prefix);
    assert(m.dom().subset_of(s.dom()));
    vstd::set_lib::lemma_set_subset_finite(s.dom(), m.dom());
    lemma_listing_exists(m);
    if gather(rows.len(), g).contains(x) {
        let i = lemma_gather_member(rows.len(), g, x);
        let k = rows[i].0;
        assert(m.contains_key(k));
        assert(f(k, s[k]).contains(x));
    }
    if exists|k: Seq<char>| s.contains_key(k) && prefix.is_prefix_of(k) && (#[trigger] f(k, s[k])).contains(x) {
        let k = choose|k: Seq<char>|
            s.contains_key(k) && prefix.is_prefix_of(k) && (#[trigger] f(k, s[k])).contains(x);
        assert(m.contains_key(k));
        assert(has_row(rows, k));
        let i = choose|i: int| 0 <= i < rows.len() && #[trigger] rows[i].0 == k;
        assert(m.contains_key(rows[i].0));
        assert(g(i).contains(x));
        lemma_gather_has(rows.len(), g, i, x);
    }
}

/// Sorting keeps what is there.
proof fn lemma_sorted_has<T: Ranked>(s: Seq<T::V>, x: T::V)
    ensures
        sorted::<T>(s).contains(x) <==> s.contains(x),
{
    broadcast use vstd::seq_lib::group_to_multiset_ensures;

    lemma_sorted_multiset::<T>(s);
    assert(sorted::<T>(s).contains(x) <==> sorted::<T>(s).to_multiset().count(x) > 0);
    assert(s.contains(x) <==> s.to_multiset().count(x) > 0);
}

/// The list of projects has exactly the projects that are there, and comes in the order of their names.
pub proof fn law_projects_are_listed(s: State, p: ProjectView)
    requires
        s.dom().finite(),
        sound(s),
    ensures
        projects(s).contains(p) <==> exists|id: Seq<char>| is_part(id) && (#[trigger] project_at(s, id)) == Some(p),
        forall|i: int, j: int|
            0 <= i <= j < projects(s).len() ==> !text_less(
                (#[trigger] projects(s)[j]).name,
                (#[trigger] projects(s)[i]).name,
            ),
{
    let rows = scan(s, K_PROJECT@);
    let g = |i: int| row_project(rows[i]);
    let f = |k: Seq<char>, e: EntryView| row_project((k, e));
    let all = gather(rows.len(), g);
    assert forall|i: int| 0 <= i < rows.len() implies #[trigger] g(i) == f(rows[i].0, rows[i].1) by {
        assert(rows[i] == (rows[i].0, rows[i].1));
    }
    lemma_scanned(s, K_PROJECT@, g, f, p);
    lemma_sorted_has::<Project>(all, p);
    law_sorting_orders::<Project>(all);
    if exists|k: Seq<char>| s.contains_key(k) && K_PROJECT@.is_prefix_of(k) && (#[trigger] f(k, s[k])).contains(p) {
        let k = choose|k: Seq<char>|
            s.contains_key(k) && K_PROJECT@.is_prefix_of(k) && (#[trigger] f(k, s[k])).contains(p);
        assert(in_place(k, s[k]));
        let id = choose|id: Seq<char>| is_part(id) && k == #[trigger] k_project(id);
        assert(project_at(s, id) == Some(p));
    }
    if exists|id: Seq<char>| is_part(id) && (#[trigger] project_at(s, id)) == Some(p) {
        let id = choose|id: Seq<char>| is_part(id) && (#[trigger] project_at(s, id)) == Some(p);
        let k = k_project(id);
        lemma_prefix_of_sum(K_PROJECT@, id);
        assert(k.skip(K_PROJECT@.len() as int) =~= id);
        assert(f(k, s[k]) == seq![p]);
        assert(f(k, s[k])[0] == p);
    }
}

/// The list of branches has every branch of the project, once.
pub proof fn law_branches_are_listed(s: State, id: Seq<char>, branch: Seq<char>)
    requires
        s.dom().finite(),
        is_part(id),
        is_part(branch),
        branch.len() > 0,
        branch_at(s, id, branch) is Some,
    ensures
        branches(s, id).contains(branch),
        branches(s, id).no_duplicates(),
{
    lemma_branches_listed(s, id);
    lemma_has_branch(s, id, branch);
    assert(branches(s, id).contains(branch) == has_branch(s, id, branch));
}

/// The list of the accounts of a project has exactly its accounts.
pub proof fn law_accounts_are_listed(s: State, project: Seq<char>, a: ProjectAdminAccountView)
    requires
        s.dom().finite(),
    ensures
        accounts(s, project).contains(a) <==> a.project == project && exists|k: Seq<char>|
            s.contains_key(k) && K_PA_ACCOUNT@.is_prefix_of(k) && #[trigger] s[k] == EntryView::Account(a),
{
    let rows = scan(s, K_PA_ACCOUNT@);
    let g = |i: int| row_account(rows[i], project);
    let f = |k: Seq<char>, e: EntryView| row_account((k, e), project);
    assert forall|i: int| 0 <= i < rows.len() implies #[trigger] g(i) == f(rows[i].0, rows[i].1) by {
        assert(rows[i] == (rows[i].0, rows[i].1));
    }
    lemma_scanned(s, K_PA_ACCOUNT@, g, f, a);
    lemma_sorted_has::<ProjectAdminAccount>(gather(rows.len(), g), a);
    if a.project == project && exists|k: Seq<char>|
        s.contains_key(k) && K_PA_ACCOUNT@.is_prefix_of(k) && #[trigger] s[k] == EntryView::Account(a) {
        let k = choose|k: Seq<char>|
            s.contains_key(k) && K_PA_ACCOUNT@.is_prefix_of(k) && #[trigger] s[k] == EntryView::Account(a);
        assert(f(k, s[k]) == seq![a]);
        assert(f(k, s[k])[0] == a);
    }
}

/// The lists of the shared library, of what is published and of what is drafted, have exactly the items that
/// stand there.
pub proof fn law_shared_items_are_listed(s: State, prefix: Seq<char>, item: SharedItemView)
    requires
        s.dom().finite(),
    ensures
        shared_under(s, prefix).contains(item) <==> exists|k: Seq<char>|
            s.contains_key(k) && prefix.is_prefix_of(k) && #[trigger] s[k] == EntryView::Shared(item),
{
    let rows = scan(s, prefix);
    let g = |i: int| row_shared(rows[i]);
    let f = |k: Seq<char>, e: EntryView| row_shared((k, e));
    assert forall|i: int| 0 <= i < rows.len() implies #[trigger] g(i) == f(rows[i].0, rows[i].1) by {
        assert(rows[i] == (rows[i].0, rows[i].1));
    }
    lemma_scanned(s, prefix, g, f, item);
    lemma_sorted_has::<SharedItem>(gather(rows.len(), g), item);
    if exists|k: Seq<char>|
        s.contains_key(k) && prefix.is_prefix_of(k) && #[trigger] s[k] == EntryView::Shared(item) {
        let k = choose|k: Seq<char>|
            s.contains_key(k) && prefix.is_prefix_of(k) && #[trigger] s[k] == EntryView::Shared(item);
        assert(f(k, s[k]) == seq![item]);
        assert(f(k, s[k])[0] == item);
    }
}

/// The list of the references of a project has exactly those that stand below it.
pub proof fn law_references_are_listed(s: State, id: Seq<char>, b: RefBindingView)
    requires
        s.dom().finite(),
    ensures
        refs(s, id).contains(b) <==> exists|k: Seq<char>|
            s.contains_key(k) && k_refs_prefix(id).is_prefix_of(k) && #[trigger] s[k] == EntryView::Ref(b),
{
    let rows = scan(s, k_refs_prefix(id));
    let g = |i: int| row_ref(rows[i]);
    let f = |k: Seq<char>, e: EntryView| row_ref((k, e));
    assert forall|i: int| 0 <= i < rows.len() implies #[trigger] g(i) == f(rows[i].0, rows[i].1) by {
        assert(rows[i] == (rows[i].0, rows[i].1));
    }
    lemma_scanned(s, k_refs_prefix(id), g, f, b);
    if exists|k: Seq<char>|
        s.contains_key(k) && k_refs_prefix(id).is_prefix_of(k) && #[trigger] s[k] == EntryView::Ref(b) {
        let k = choose|k: Seq<char>|
            s.contains_key(k) && k_refs_prefix(id).is_prefix_of(k) && #[trigger] s[k] == EntryView::Ref(b);
        assert(f(k, s[k]) == seq![b]);
        assert(f(k, s[k])[0] == b);
    }
}

/// The list of the sessions of the administrator has exactly those that stand there.
pub proof fn law_sessions_are_listed(s: State, x: AdminSessionView)
    requires
        s.dom().finite(),
    ensures
        admin_sessions(s).contains(x) <==> exists|k: Seq<char>|
            s.contains_key(k) && K_SESSIONS@.is_prefix_of(k) && #[trigger] s[k] == EntryView::Session(x),
{
    let rows = scan(s, K_SESSIONS@);
    let g = |i: int| row_session(rows[i]);
    let f = |k: Seq<char>, e: EntryView| row_session((k, e));
    assert forall|i: int| 0 <= i < rows.len() implies #[trigger] g(i) == f(rows[i].0, rows[i].1) by {
        assert(rows[i] == (rows[i].0, rows[i].1));
    }
    lemma_scanned(s, K_SESSIONS@, g, f, x);
    if exists|k: Seq<char>|
        s.contains_key(k) && K_SESSIONS@.is_prefix_of(k) && #[trigger] s[k] == EntryView::Session(x) {
        let k = choose|k: Seq<char>|
            s.contains_key(k) && K_SESSIONS@.is_prefix_of(k) && #[trigger] s[k] == EntryView::Session(x);
        assert(f(k, s[k]) == seq![x]);
        assert(f(k, s[k])[0] == x);
    }
}

/// The history of a branch has exactly the records of its versions.
pub proof fn law_history_has_every_version(
    s: State,
    id: Seq<char>,
    branch: Seq<char>,
    r: VersionRecordView,
)
    requires
        s.dom().finite(),
        sound(s),
        is_part(id),
        is_part(branch),
    ensures
        history(s, id, branch).contains(r) <==> record_at(s, id, branch, r.no) == Some(r),
{
    let hist = history(s, id, branch);
    if hist.contains(r) {
        let i = choose|i: int| 0 <= i < hist.len() && hist[i] == r;
        lemma_history_entry(s, id, branch, i);
    }
    let pre = k_versions_prefix(id, branch);
    let rows = scan(s, pre);
    let g = |i: int| row_version(rows[i]);
    let f = |k: Seq<char>, e: EntryView| row_version((k, e));
    assert forall|i: int| 0 <= i < rows.len() implies #[trigger] g(i) == f(rows[i].0, rows[i].1) by {
        assert(rows[i] == (rows[i].0, rows[i].1));
    }
    lemma_scanned(s, pre, g, f, r);
    lemma_sorted_has::<VersionRecord>(gather(rows.len(), g), r);
    if record_at(s, id, branch, r.no) == Some(r) {
        let k = k_version(id, branch, r.no);
        lemma_prefix_of_sum(pre, dec(r.no as nat));
        assert(k =~= pre + dec(r.no as nat));
        lemma_dec_value(r.no as nat);
        reveal_strlit("/snap");
        reveal_strlit("/diff");
        assert(is_digit(dec(r.no as nat)[dec(r.no as nat).len() - 1]));
        assert(k.last() == dec(r.no as nat).last());
        if ends_with(k, K_SNAP@) {
            assert(k.last() == K_SNAP@.last());
        }
        if ends_with(k, K_DIFF@) {
            assert(k.last() == K_DIFF@.last());
        }
        assert(f(k, s[k]) == seq![r]);
        assert(f(k, s[k])[0] == r);
    }
}

/// A configuration that is read is the content of the version that is asked for, of the active one where none
/// is, with the names that it is asked by and the version of the structure. There is none for a branch that is
/// not there, nor before its first version.
pub proof fn law_configurations_are_contents(s: State, id: Seq<char>, branch: Seq<char>, version: u64)
    ensures
        ({
            let v = if version == 0 {
                active_at(s, id, branch)
            } else {
                version
            };
            &&& config(s, id, branch, version) matches Ok(c) ==> {
                &&& branch_at(s, id, branch) is Some
                &&& c.project == id && c.branch == branch && c.version == v && v > 0
                &&& content(s, id, branch, v) == Some(c.groups)
                &&& c.structure_version == match structure_at(s, id) {
                    Some(x) => x.version,
                    None => 0,
                }
            }
            &&& branch_at(s, id, branch) is Some && v > 0 && content(s, id, branch, v) is Some && (
            s.contains_key(k_struct(id)) ==> structure_at(s, id) is Some) ==> config(s, id, branch, version)
                is Ok
            &&& (!s.contains_key(k_branch_state(id, branch)) || (branch_at(s, id, branch) is Some && v == 0))
                ==> (config(s, id, branch, version) matches Err(e) && e.kind == ErrorKind::NotFound)
        }),
{
}

/// Pruning the audit trail takes the oldest entries: where one goes and one stays, the one that stays is newer.
/// It takes none while there are no more than are to be kept, and leaves alone what is no entry.
pub proof fn law_audit_pruning_takes_the_oldest(
    s: State,
    keep: nat,
    a: AuditEntryView,
    b: AuditEntryView,
    k: Seq<char>,
)
    requires
        s.dom().finite(),
        is_logged(s, a),
        is_logged(s, b),
    ensures
        ({
            let t = audit_pruned(s, keep);
            &&& !is_logged(t, a) && is_logged(t, b) ==> a.seq < b.seq
            &&& audit_numbers(s).len() <= keep ==> t == s
            &&& (forall|n: u64| k != #[trigger] k_audit(n)) ==> same_at(s, t, k)
            &&& same_at(s, t, k) || !t.contains_key(k)
        }),
{
    let t = audit_pruned(s, keep);
    let nos = audit_numbers(s);
    let n = audit_excess(s, keep);
    let gone = Seq::new(n, |i: int| k_audit(nos[i]));
    lemma_delete_all(s, gone, k);
    lemma_delete_all(s, gone, k_audit(a.seq));
    lemma_delete_all(s, gone, k_audit(b.seq));
    if n == 0 {
        assert(gone =~= Seq::empty());
    }
    let rows = scan(s, K_AUDIT@);
    let g = |i: int| row_number(rows[i]);
    let f = |x: Seq<char>, e: EntryView| row_number((x, e));
    assert forall|i: int| 0 <= i < rows.len() implies #[trigger] g(i) == f(rows[i].0, rows[i].1) by {
        assert(rows[i] == (rows[i].0, rows[i].1));
    }
    law_sorting_orders::<u64>(gather(rows.len(), g));
    if gone.contains(k) {
        let i = choose|i: int| 0 <= i < gone.len() && gone[i] == k;
        assert(k == k_audit(nos[i]));
    }
    if !is_logged(t, a) && is_logged(t, b) {
        assert(gone.contains(k_audit(a.seq)));
        assert(!gone.contains(k_audit(b.seq)));
        let i = choose|i: int| 0 <= i < gone.len() && gone[i] == k_audit(a.seq);
        lemma_audit_keys(nos[i], a.seq);
        let x = k_audit(b.seq);
        lemma_prefix_of_sum(K_AUDIT@, padded(b.seq as nat));
        assert(x.skip(K_AUDIT@.len() as int) =~= padded(b.seq as nat));
        lemma_padded_digits(b.seq);
        lemma_padded_value(b.seq as nat);
        lemma_scanned(s, K_AUDIT@, g, f, b.seq);
        assert(f(x, s[x]) == seq![b.seq]);
        assert(f(x, s[x])[0] == b.seq);
        lemma_sorted_has::<u64>(gather(rows.len(), g), b.seq);
        let j = choose|j: int| 0 <= j < nos.len() && nos[j] == b.seq;
        if j < n {
            assert(gone[j] == k_audit(b.seq));
        }
        assert(nos[i] <= nos[j]);
        if a.seq == b.seq {
            assert(gone.contains(k_audit(b.seq)));
        }
    }
}

proof fn lemma_delete_all(s: State, keys: Seq<Seq<char>>, k: Seq<char>)
    ensures
        keys.contains(k) ==> !delete_all(s, keys).contains_key(k),
        !keys.contains(k) ==> same_at(s, delete_all(s, keys), k),
    decreases keys.len(),
{
    if keys.len() > 0 {
        let d = keys.drop_last();
        lemma_delete_all(s, d, k);
        if d.contains(k) {
            let i = choose|i: int| 0 <= i < d.len() && d[i] == k;
            assert(keys[i] == k);
        }
        if keys.contains(k) && keys.last() != k {
            let i = choose|i: int| 0 <= i < keys.len() && keys[i] == k;
            assert(d[i] == k);
        }
        if keys.last() == k {
            assert(keys[keys.len() - 1] == k);
        }
    }
}

/// Pruning the audit trail leaves the newest entries that are to be kept, and no others: an entry stays exactly
/// where it is not older than as many of the newest.
pub proof fn law_audit_pruning_leaves_the_newest(s: State, keep: nat, e: AuditEntryView)
    requires
        s.dom().finite(),
        is_logged(s, e),
    ensures
        ({
            let t = audit_pruned(s, keep);
            let nos = audit_numbers(s);
            &&& is_logged(t, e) ==> exists|j: int|
                0 <= j < nos.len() && #[trigger] nos[j] == e.seq && nos.len() <= j + keep
            &&& (forall|i: int| 0 <= i < nos.len() - keep ==> #[trigger] nos[i] < e.seq) ==> is_logged(t, e)
            &&& forall|i: int, j: int| 0 <= i <= j < nos.len() ==> #[trigger] nos[i] <= #[trigger] nos[j]
        }),
{
    let t = audit_pruned(s, keep);
    let nos = audit_numbers(s);
    let n = audit_excess(s, keep);
    let gone = Seq::new(n, |i: int| k_audit(nos[i]));
    let k = k_audit(e.seq);
    lemma_delete_all(s, gone, k);
    let rows = scan(s, K_AUDIT@);
    let g = |i: int| row_number(rows[i]);
    let f = |x: Seq<char>, y: EntryView| row_number((x, y));
    assert forall|i: int| 0 <= i < rows.len() implies #[trigger] g(i) == f(rows[i].0, rows[i].1) by {
        assert(rows[i] == (rows[i].0, rows[i].1));
    }
    law_sorting_orders::<u64>(gather(rows.len(), g));
    lemma_prefix_of_sum(K_AUDIT@, padded(e.seq as nat));
    assert(k.skip(K_AUDIT@.len() as int) =~= padded(e.seq as nat));
    lemma_padded_digits(e.seq);
    lemma_padded_value(e.seq as nat);
    lemma_scanned(s, K_AUDIT@, g, f, e.seq);
    assert(f(k, s[k]) == seq![e.seq]);
    assert(f(k, s[k])[0] == e.seq);
    lemma_sorted_has::<u64>(gather(rows.len(), g), e.seq);
    let j = choose|j: int| 0 <= j < nos.len() && nos[j] == e.seq;
    if is_logged(t, e) {
        if j < n {
            assert(gone[j] == k);
        }
        assert(nos[j] == e.seq && nos.len() <= j + keep);
    }
    if forall|i: int| 0 <= i < nos.len() - keep ==> #[trigger] nos[i] < e.seq {
        if gone.contains(k) {
            let i = choose|i: int| 0 <= i < gone.len() && gone[i] == k;
            lemma_audit_keys(nos[i], e.seq);
            assert(nos[i] < e.seq);
        }
    }
}

/// A name that is listed as that of a branch has something below it.
pub proof fn law_listed_branches_have_keys(s: State, id: Seq<char>, branch: Seq<char>)
    requires
        s.dom().finite(),
        is_part(id),
        branches(s, id).contains(branch),
    ensures
        branch.len() > 0,
        !branch.contains('/'),
        exists|k: Seq<char>|
            s.contains_key(k) && #[trigger] (k_branches_prefix(id) + branch + "/"@).is_prefix_of(k),
{
    lemma_branches_listed(s, id);
    assert(branches(s, id).contains(branch) == has_branch(s, id, branch));
}

} // verus!
