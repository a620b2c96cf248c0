//! What the regular pruning of all branches leaves.
use vstd::prelude::*;

use crate::jobs::{all_pruned, branches_pruned, projects_pruned};
use crate::keys::{K_VERSION, k_branch_prefix, k_branch_state, k_versions_prefix};
use crate::laws::paths::{is_part, lemma_branch_keys, lemma_branch_parts, lemma_parts_around, parts};
use crate::laws::pruning::{
    law_history_rises, law_pruning_counts_what_goes, law_pruning_spares_others, lemma_gone_count,
    lemma_struct_not_pruned, numbers,
};
use crate::laws::reading::law_branches_are_listed;
use crate::laws::sound::{branch_at, lemma_base, same_at, sound};
use crate::laws::steps::lemma_branch_names;
use crate::laws::upkeep::{
    law_pruning_keeps_recent_versions, lemma_history_numbers, lemma_not_pruned,
};
use crate::model::ProjectView;
use crate::step::{base_of, branches, config, history, projects, snapshot};
use crate::store::{State, under};
use crate::text::lemma_split_single;
use crate::transition::{pivot, pruned_key, record_goes, version_owns, versions_pruned};

verus! {

/// What is read of every branch is as it was.
spec fn reads_alike(s: State, t: State) -> bool {
    forall|i: Seq<char>, b: Seq<char>| #![trigger config(t, i, b, 0)]
        is_part(i) && is_part(b) ==> branch_at(t, i, b) == branch_at(s, i, b) && config(t, i, b, 0) == config(
            s,
            i,
            b,
            0,
        )
}

proof fn lemma_one_branch(s: State, id: Seq<char>, branch: Seq<char>, keep: nat)
    requires
        s.dom().finite(),
        sound(s),
        versions_pruned(s, id, branch, keep) is Ok,
    ensures
        ({
            let t = versions_pruned(s, id, branch, keep)->Ok_0.0;
            sound(t) && t.dom().finite() && reads_alike(s, t)
        }),
{
    assert(branch_at(s, id, branch) is Some);
    lemma_branch_names(s, id, branch);
    let t = versions_pruned(s, id, branch, keep)->Ok_0.0;
    law_pruning_keeps_recent_versions(s, id, branch, keep);
    assert(t.dom().subset_of(s.dom()));
    vstd::set_lib::lemma_set_subset_finite(s.dom(), t.dom());
    let hist = history(s, id, branch);
    let active = branch_at(s, id, branch)->0.active_version;
    if hist.len() > keep {
        let p = pivot(hist, keep);
        lemma_history_numbers(s, id, branch, hist.len() - keep - 1);
        lemma_base(p as int);
        lemma_struct_not_pruned(id, branch, hist, p, active, id);
        assert(snapshot(t, id, branch, active) == snapshot(s, id, branch, active));
        assert forall|i: Seq<char>, b: Seq<char>| #![trigger config(t, i, b, 0)]
            is_part(i) && is_part(b) implies branch_at(t, i, b) == branch_at(s, i, b) && config(t, i, b, 0)
            == config(s, i, b, 0) by {
            lemma_not_pruned(id, branch, hist, p, active, i, b, 0, k_branch_state(i, b));
            assert(same_at(s, t, k_branch_state(i, b)));
            if !(i == id && b == branch) {
                law_pruning_spares_others(s, id, branch, keep, i, b, 0);
            }
        }
    }
}

proof fn lemma_alike_chain(s: State, t: State, u: State)
    requires
        reads_alike(s, t),
        reads_alike(t, u),
    ensures
        reads_alike(s, u),
{
    assert forall|i: Seq<char>, b: Seq<char>| #![trigger config(u, i, b, 0)]
        is_part(i) && is_part(b) implies branch_at(u, i, b) == branch_at(s, i, b) && config(u, i, b, 0)
        == config(s, i, b, 0) by {
        assert(config(t, i, b, 0) == config(s, i, b, 0));
    }
}

proof fn lemma_branches(s: State, id: Seq<char>, list: Seq<Seq<char>>, n: nat, keep: nat)
    requires
        s.dom().finite(),
        sound(s),
        n <= list.len(),
    ensures
        ({
            let t = branches_pruned(s, id, list, n, keep).0;
            sound(t) && t.dom().finite() && reads_alike(s, t)
        }),
    decreases n,
{
    if n > 0 {
        lemma_branches(s, id, list, (n - 1) as nat, keep);
        let w = branches_pruned(s, id, list, (n - 1) as nat, keep);
        if w.1 is None && versions_pruned(w.0, id, list[n - 1], keep) is Ok {
            lemma_one_branch(w.0, id, list[n - 1], keep);
            lemma_alike_chain(s, w.0, branches_pruned(s, id, list, n, keep).0);
        }
    }
}

proof fn lemma_projects(s: State, list: Seq<ProjectView>, n: nat, keep: nat)
    requires
        s.dom().finite(),
        sound(s),
        n <= list.len(),
    ensures
        ({
            let t = projects_pruned(s, list, n, keep).0;
            sound(t) && t.dom().finite() && reads_alike(s, t)
        }),
    decreases n,
{
    if n > 0 {
        lemma_projects(s, list, (n - 1) as nat, keep);
        let w = projects_pruned(s, list, (n - 1) as nat, keep);
        if w.1 is None {
            let names = branches(w.0, list[n - 1].id);
            lemma_branches(w.0, list[n - 1].id, names, names.len(), keep);
            lemma_alike_chain(s, w.0, projects_pruned(s, list, n, keep).0);
        }
    }
}

/// Pruning all branches, however many versions it keeps, changes no active configuration and no branch.
pub proof fn law_retention_keeps_what_is_active(s: State, keep: nat, id: Seq<char>, branch: Seq<char>)
    requires
        s.dom().finite(),
        sound(s),
        is_part(id),
        is_part(branch),
    ensures
        sound(all_pruned(s, keep).0),
        branch_at(all_pruned(s, keep).0, id, branch) == branch_at(s, id, branch),
        config(all_pruned(s, keep).0, id, branch, 0) == config(s, id, branch, 0),
{
    lemma_projects(s, projects(s), projects(s).len(), keep);
}

/// A key below the versions of a branch names the branch.
proof fn lemma_below_versions(id: Seq<char>, branch: Seq<char>, k: Seq<char>)
    requires
        is_part(id),
        is_part(branch),
        k_versions_prefix(id, branch).is_prefix_of(k),
    ensures
        parts(k).len() > 3,
        parts(k)[1] == id,
        parts(k)[3] == branch,
{
    let pre = k_versions_prefix(id, branch);
    let rest = k.skip(pre.len() as int);
    assert(k =~= pre + rest);
    reveal_strlit("/v/");
    reveal_strlit("v");
    assert(K_VERSION@ =~= seq!['/'] + "v"@ + seq!['/']);
    lemma_branch_parts(id, branch);
    lemma_split_single(id, '/');
    lemma_split_single(branch, '/');
    lemma_parts_around(k_branch_prefix(id, branch), "v"@, rest);
}

/// Pruning a branch leaves the histories of all others alone.
proof fn lemma_other_histories(
    s: State,
    id: Seq<char>,
    branch: Seq<char>,
    keep: nat,
    i: Seq<char>,
    b: Seq<char>,
)
    requires
        versions_pruned(s, id, branch, keep) is Ok,
        is_part(id) && is_part(branch) && is_part(i) && is_part(b),
        !(i == id && b == branch),
    ensures
        history(versions_pruned(s, id, branch, keep)->Ok_0.0, i, b) == history(s, i, b),
{
    let t = versions_pruned(s, id, branch, keep)->Ok_0.0;
    let hist = history(s, id, branch);
    let pre = k_versions_prefix(i, b);
    if hist.len() > keep {
        let p = pivot(hist, keep);
        let active = branch_at(s, id, branch)->0.active_version;
        assert forall|k: Seq<char>| pre.is_prefix_of(k) implies !#[trigger] pruned_key(
            id,
            branch,
            hist,
            p,
            active,
            k,
        ) by {
            lemma_below_versions(i, b, k);
            if pruned_key(id, branch, hist, p, active, k) {
                let j = choose|j: int|
                    0 <= j < hist.len() && version_owns(id, branch, (#[trigger] hist[j]).no, p, active, k);
                lemma_branch_keys(id, branch, hist[j].no);
            }
        }
        assert(under(t, pre) =~= under(s, pre));
    }
}

/// What is left of a history that was pruned.
proof fn lemma_few_left(s: State, id: Seq<char>, branch: Seq<char>, keep: nat)
    requires
        s.dom().finite(),
        sound(s),
        versions_pruned(s, id, branch, keep) is Ok,
    ensures
        ({
            let t = versions_pruned(s, id, branch, keep)->Ok_0.0;
            &&& history(t, id, branch).len() <= keep + 2
            &&& history(t, id, branch).len() <= history(s, id, branch).len()
        }),
{
    law_pruning_counts_what_goes(s, id, branch, keep);
    assert(branch_at(s, id, branch) is Some);
    lemma_branch_names(s, id, branch);
    let hist = history(s, id, branch);
    if hist.len() > keep {
        let p = pivot(hist, keep);
        let active = branch_at(s, id, branch)->0.active_version;
        let base = base_of(p as int);
        law_history_rises(s, id, branch);
        let nos = numbers(hist);
        assert(nos.no_duplicates()) by {
            assert forall|a: int, c: int| 0 <= a < nos.len() && 0 <= c < nos.len() && a != c implies nos[a]
                != nos[c] by {
                if a < c {
                    assert(hist[a].no < hist[c].no);
                } else {
                    assert(hist[c].no < hist[a].no);
                }
            }
        }
        lemma_gone_count(hist, p, active);
        let goes = |no: u64| record_goes(p, active, no);
        let gone = nos.to_set().filter(goes);
        let n = hist.len() - keep;
        let old = nos.take(n);
        assert(old.no_duplicates());
        vstd::seq_lib::seq_to_set_is_finite(old);
        old.unique_seq_to_set();
        let rest = old.to_set().remove(active).remove(base as u64);
        assert(rest.len() >= n - 2);
        assert forall|no: u64| rest.contains(no) implies gone.contains(no) by {
            let a = choose|a: int| 0 <= a < old.len() && old[a] == no;
            assert(nos[a] == no);
            assert(hist[a].no == no);
            if a < n - 1 {
                assert(hist[a].no < hist[n - 1].no);
            }
            lemma_history_numbers(s, id, branch, n - 1);
            lemma_base(p as int);
        }
        assert(rest.subset_of(gone));
        vstd::set_lib::lemma_len_subset(rest, gone);
    }
}

/// No history is longer than it was.
spec fn none_longer(s: State, t: State) -> bool {
    forall|i: Seq<char>, b: Seq<char>|
        is_part(i) && is_part(b) ==> (#[trigger] history(t, i, b)).len() <= history(s, i, b).len()
}

proof fn lemma_one_shortened(s: State, id: Seq<char>, branch: Seq<char>, keep: nat)
    requires
        s.dom().finite(),
        sound(s),
        versions_pruned(s, id, branch, keep) is Ok,
    ensures
        none_longer(s, versions_pruned(s, id, branch, keep)->Ok_0.0),
        history(versions_pruned(s, id, branch, keep)->Ok_0.0, id, branch).len() <= keep + 2,
{
    let t = versions_pruned(s, id, branch, keep)->Ok_0.0;
    assert(branch_at(s, id, branch) is Some);
    lemma_branch_names(s, id, branch);
    lemma_few_left(s, id, branch, keep);
    assert forall|i: Seq<char>, b: Seq<char>| is_part(i) && is_part(b) implies (#[trigger] history(
        t,
        i,
        b,
    )).len() <= history(s, i, b).len() by {
        if !(i == id && b == branch) {
            lemma_other_histories(s, id, branch, keep, i, b);
        }
    }
}

proof fn lemma_longer_chain(s: State, t: State, u: State)
    requires
        none_longer(s, t),
        none_longer(t, u),
    ensures
        none_longer(s, u),
{
    assert forall|i: Seq<char>, b: Seq<char>| is_part(i) && is_part(b) implies (#[trigger] history(
        u,
        i,
        b,
    )).len() <= history(s, i, b).len() by {
        assert(history(t, i, b).len() <= history(s, i, b).len());
    }
}

proof fn lemma_branches_shortened(s: State, id: Seq<char>, list: Seq<Seq<char>>, n: nat, keep: nat)
    requires
        s.dom().finite(),
        sound(s),
        n <= list.len(),
    ensures
        ({
            let w = branches_pruned(s, id, list, n, keep);
            &&& none_longer(s, w.0)
            &&& w.1 is None ==> forall|j: int|
                0 <= j < n ==> history(w.0, id, #[trigger] list[j]).len() <= keep + 2
        }),
    decreases n,
{
    if n > 0 {
        lemma_branches(s, id, list, (n - 1) as nat, keep);
        lemma_branches_shortened(s, id, list, (n - 1) as nat, keep);
        let w = branches_pruned(s, id, list, (n - 1) as nat, keep);
        let x = branches_pruned(s, id, list, n, keep);
        if w.1 is None && versions_pruned(w.0, id, list[n - 1], keep) is Ok {
            lemma_one_shortened(w.0, id, list[n - 1], keep);
            lemma_longer_chain(s, w.0, x.0);
            assert forall|j: int| 0 <= j < n implies history(x.0, id, #[trigger] list[j]).len() <= keep + 2 by {
                if j < n - 1 {
                    assert(history(w.0, id, list[j]).len() <= keep + 2);
                    lemma_pruned_names(s, id, list, (n - 1) as nat, keep, j);
                    assert(history(x.0, id, list[j]).len() <= history(w.0, id, list[j]).len());
                }
            }
        }
    }
}

/// The branches that were pruned have proper names.
proof fn lemma_pruned_names(s: State, id: Seq<char>, list: Seq<Seq<char>>, n: nat, keep: nat, j: int)
    requires
        s.dom().finite(),
        sound(s),
        0 <= j < n <= list.len(),
        branches_pruned(s, id, list, n, keep).1 is None,
    ensures
        is_part(id),
        is_part(list[j]),
    decreases n,
{
    lemma_branches(s, id, list, (n - 1) as nat, keep);
    let w = branches_pruned(s, id, list, (n - 1) as nat, keep);
    if j == n - 1 {
        assert(branch_at(w.0, id, list[j]) is Some);
        lemma_branch_names(w.0, id, list[j]);
    } else {
        lemma_pruned_names(s, id, list, (n - 1) as nat, keep, j);
    }
}

proof fn lemma_projects_shortened(s: State, list: Seq<ProjectView>, n: nat, keep: nat, m: int, branch: Seq<char>)
    requires
        s.dom().finite(),
        sound(s),
        n <= list.len(),
    ensures
        ({
            let w = projects_pruned(s, list, n, keep);
            &&& none_longer(s, w.0)
            &&& w.1 is None && 0 <= m < n && branch.len() > 0 && branch_at(s, list[m].id, branch) is Some
                ==> history(w.0, list[m].id, branch).len() <= keep + 2
        }),
    decreases n,
{
    if n > 0 {
        lemma_projects(s, list, (n - 1) as nat, keep);
        lemma_projects_shortened(s, list, (n - 1) as nat, keep, m, branch);
        let w = projects_pruned(s, list, (n - 1) as nat, keep);
        let x = projects_pruned(s, list, n, keep);
        if w.1 is None {
            let id = list[n - 1].id;
            let names = branches(w.0, id);
            lemma_branches_shortened(w.0, id, names, names.len(), keep);
            lemma_longer_chain(s, w.0, x.0);
            if x.1 is None && 0 <= m < n && branch.len() > 0 && branch_at(s, list[m].id, branch) is Some {
                lemma_branch_names(s, list[m].id, branch);
                if m == n - 1 {
                    assert(config(w.0, id, branch, 0) == config(s, id, branch, 0));
                    assert(branch_at(w.0, id, branch) is Some);
                    law_branches_are_listed(w.0, id, branch);
                    let j = choose|j: int| 0 <= j < names.len() && names[j] == branch;
                    assert(history(x.0, id, names[j]).len() <= keep + 2);
                } else {
                    assert(history(x.0, list[m].id, branch).len() <= history(w.0, list[m].id, branch).len());
                }
            }
        }
    }
}

/// Pruning all branches, where nothing stops it, leaves of every branch of every project no more than the versions
/// to keep, the active one and a checkpoint.
pub proof fn law_retention_reaches_every_branch(s: State, keep: nat, m: int, branch: Seq<char>)
    requires
        s.dom().finite(),
        sound(s),
        all_pruned(s, keep).1 is None,
        0 <= m < projects(s).len(),
        branch.len() > 0,
        branch_at(s, projects(s)[m].id, branch) is Some,
    ensures
        history(all_pruned(s, keep).0, projects(s)[m].id, branch).len() <= keep + 2,
{
    lemma_projects_shortened(s, projects(s), projects(s).len(), keep, m, branch);
}

} // verus!
