//! The list of the first members of a cluster, and how a node starts.
use vstd::prelude::*;

use crate::cluster::{
    NodeInfoView, PeerRows, addr_error, bootstrap_peers, has_peer, http_taken, local_error,
    member_diffs, ordered_peers, peer, peer_in, raft_taken, seed_diffs, seed_step, seeds,
    with_peer,
};
use crate::gather::{gather, lemma_gather_empty, one_if};
use crate::laws::checks::lemma_nothing_gathered;
use crate::startup::{StartPlanView, plan};
use crate::text::{dec, lemma_split_nonempty, number_of, split_on, trimmed};

verus! {

/// What a text is split into makes it again, and no part has the separator.
proof fn lemma_split_glue(s: Seq<char>, sep: char)
    ensures
        glued(split_on(s, sep), sep) == s,
        forall|i: int| 0 <= i < split_on(s, sep).len() ==> !(#[trigger] split_on(s, sep)[i]).contains(sep),
    decreases s.len(),
{
    lemma_split_nonempty(s, sep);
    if s.len() > 0 {
        let d = s.drop_last();
        lemma_split_glue(d, sep);
        lemma_split_nonempty(d, sep);
        let p = split_on(d, sep);
        let q = split_on(s, sep);
        if s.last() == sep {
            assert(q.drop_last() =~= p);
            assert(glued(q, sep) =~= glued(p, sep).push(sep));
            assert forall|i: int| 0 <= i < q.len() implies !(#[trigger] q[i]).contains(sep) by {
                if i < p.len() {
                    assert(q[i] == p[i]);
                }
            }
        } else {
            assert(q.drop_last() =~= p.drop_last());
            assert(q.last() =~= p.last().push(s.last()));
            assert(glued(q, sep) =~= glued(p, sep).push(s.last()));
            assert forall|i: int| 0 <= i < q.len() implies !(#[trigger] q[i]).contains(sep) by {
                assert(!p[i].contains(sep));
                if i == q.len() - 1 && q[i].contains(sep) {
                    let j = choose|j: int| 0 <= j < q[i].len() && q[i][j] == sep;
                    assert(p[i][j] == sep);
                }
            }
        }
        assert(s =~= d.push(s.last()));
    } else {
        assert(glued(split_on(s, sep), sep) =~= s);
    }
}

/// The parts with the separator between them.
spec fn glued(parts: Seq<Seq<char>>, sep: char) -> Seq<char>
    decreases parts.len(),
{
    if parts.len() == 0 {
        Seq::empty()
    } else if parts.len() == 1 {
        parts[0]
    } else {
        glued(parts.drop_last(), sep).push(sep) + parts.last()
    }
}

proof fn lemma_two_parts(s: Seq<char>, sep: char)
    requires
        split_on(s, sep).len() == 2,
    ensures
        s == split_on(s, sep)[0] + seq![sep] + split_on(s, sep)[1],
        !split_on(s, sep)[0].contains(sep),
        !split_on(s, sep)[1].contains(sep),
{
    lemma_split_glue(s, sep);
    let p = split_on(s, sep);
    assert(p.drop_last() =~= seq![p[0]]);
    assert(glued(p.drop_last(), sep) == p[0]);
    assert(s =~= p[0] + seq![sep] + p[1]);
}

proof fn lemma_three_parts(s: Seq<char>, sep: char)
    requires
        split_on(s, sep).len() == 3,
    ensures
        s == split_on(s, sep)[0] + seq![sep] + split_on(s, sep)[1] + seq![sep] + split_on(s, sep)[2],
{
    lemma_split_glue(s, sep);
    let p = split_on(s, sep);
    let q = p.drop_last();
    assert(q.drop_last() =~= seq![p[0]]);
    assert(glued(q.drop_last(), sep) == p[0]);
    assert(glued(q, sep) =~= p[0] + seq![sep] + p[1]);
    assert(s =~= p[0] + seq![sep] + p[1] + seq![sep] + p[2]);
}

/// Whether the address of a member can be reached by the others: a host that is no wildcard, a colon, and a port
/// from 1 to 65535.
pub open spec fn is_member_addr(addr: Seq<char>) -> bool {
    exists|host: Seq<char>, port: Seq<char>| #[trigger] is_reachable(addr, host, port)
}

pub open spec fn is_reachable(addr: Seq<char>, host: Seq<char>, port: Seq<char>) -> bool {
    &&& addr == host + seq![':'] + port
    &&& !host.contains(':') && !port.contains(':')
    &&& host.len() > 0 && host != "0.0.0.0"@
    &&& number_of(port, 65535) matches Some(n) && n >= 1
}

/// Whether an entry of the list is the one of the node.
#[verifier::opaque]
pub open spec fn is_entry_of(entry: Seq<char>, id: u64, node: NodeInfoView) -> bool {
    exists|no: Seq<char>|
        entry == #[trigger] (no + seq!['@'] + node.raft_addr + seq!['@'] + node.http_addr) && number_of(
            trimmed(no),
            u64::MAX as nat,
        ) == Some(id as nat)
}

/// Whether the members can make a cluster: ids from 1 on, in ascending order, and addresses that can be reached
/// and are not shared.
#[verifier::opaque]
pub open spec fn is_cluster(rows: PeerRows) -> bool {
    &&& forall|i: int, j: int| 0 <= i < j < rows.len() ==> (#[trigger] rows[i]).0 < (#[trigger] rows[j]).0
    &&& forall|i: int|
        0 <= i < rows.len() ==> (#[trigger] rows[i]).0 > 0 && is_member_addr(rows[i].1.raft_addr)
            && is_member_addr(rows[i].1.http_addr)
    &&& forall|i: int, j: int|
        0 <= i < j < rows.len() ==> (#[trigger] rows[i]).1.raft_addr != (#[trigger] rows[j]).1.raft_addr
            && rows[i].1.http_addr != rows[j].1.http_addr
}

proof fn lemma_addr(label: Seq<char>, addr: Seq<char>, idx: nat)
    requires
        addr_error(label, addr, idx) is None,
    ensures
        is_member_addr(addr),
{
    let p = split_on(addr, ':');
    lemma_two_parts(addr, ':');
    assert(is_reachable(addr, p[0], p[1]));
}

/// Where the new member stands among the others.
proof fn lemma_with_peer(rows: PeerRows, id: u64, node: NodeInfoView) -> (at: int)
    requires
        ordered_peers(rows),
        !has_peer(rows, id),
    ensures
        0 <= at <= rows.len(),
        with_peer(rows, id, node) == rows.insert(at, (id, node)),
        forall|i: int| 0 <= i < at ==> (#[trigger] rows[i]).0 < id,
        forall|i: int| at <= i < rows.len() ==> (#[trigger] rows[i]).0 > id,
    decreases rows.len(),
{
    if rows.len() > 0 && rows.last().0 > id {
        let d = rows.drop_last();
        assert forall|i: int, j: int| 0 <= i < j < d.len() implies (#[trigger] d[i]).0 < (#[trigger] d[j]).0 by {
            assert(d[i] == rows[i] && d[j] == rows[j]);
        }
        assert(!has_peer(d, id)) by {
            if has_peer(d, id) {
                let i = choose|i: int| 0 <= i < d.len() && (#[trigger] d[i]).0 == id;
                assert(rows[i].0 == id);
            }
        }
        let at = lemma_with_peer(d, id, node);
        assert(d.insert(at, (id, node)).push(rows.last()) =~= rows.insert(at, (id, node)));
        assert forall|i: int| 0 <= i < at implies (#[trigger] rows[i]).0 < id by {
            assert(d[i] == rows[i]);
        }
        assert forall|i: int| at <= i < rows.len() implies (#[trigger] rows[i]).0 > id by {
            if i < d.len() {
                assert(d[i] == rows[i]);
            }
        }
        at
    } else {
        assert(rows.push((id, node)) =~= rows.insert(rows.len() as int, (id, node)));
        assert forall|i: int| 0 <= i < rows.len() implies (#[trigger] rows[i]).0 < id by {
            if rows[i].0 == id {
                assert(has_peer(rows, id));
            }
            if i < rows.len() - 1 {
                assert(rows[i].0 < rows[rows.len() - 1].0);
                assert(rows[rows.len() - 1].0 <= id);
            } else {
                assert(rows[rows.len() - 1].0 <= id);
            }
        }
        rows.len() as int
    }
}

/// One entry more.
proof fn lemma_seed_step(rows: PeerRows, piece: Seq<char>, idx: nat)
    requires
        is_cluster(rows),
        seed_step(rows, piece, idx) is Ok,
    ensures
        ({
            let r = seed_step(rows, piece, idx)->Ok_0;
            &&& is_cluster(r)
            &&& trimmed(piece).len() == 0 ==> r == rows
            &&& trimmed(piece).len() > 0 ==> exists|id: u64, node: NodeInfoView|
                is_entry_of(trimmed(piece), id, node) && #[trigger] is_with(rows, r, id, node)
        }),
{
    reveal(is_cluster);
    reveal(is_entry_of);
    let entry = trimmed(piece);
    if entry.len() > 0 {
        let p = split_on(entry, '@');
        let id = number_of(trimmed(p[0]), u64::MAX as nat)->0 as u64;
        let node = NodeInfoView { grpc_addr: Seq::empty(), http_addr: p[2], raft_addr: p[1] };
        let r = seed_step(rows, piece, idx)->Ok_0;
        lemma_three_parts(entry, '@');
        lemma_addr("raft_addr"@, p[1], idx);
        lemma_addr("http_addr"@, p[2], idx);
        let at = lemma_with_peer(rows, id, node);
        assert(r == rows.insert(at, (id, node)));
        assert(entry == p[0] + seq!['@'] + node.raft_addr + seq!['@'] + node.http_addr);
        assert(is_entry_of(entry, id, node));
        assert(is_with(rows, r, id, node));
        assert forall|i: int|
            0 <= i < r.len() implies (#[trigger] r[i]) == (if i < at {
            rows[i]
        } else if i == at {
            (id, node)
        } else {
            rows[i - 1]
        }) by {}
        assert forall|i: int, j: int| 0 <= i < j < r.len() implies (#[trigger] r[i]).0 < (#[trigger] r[j]).0 by {}
        assert forall|i: int|
            0 <= i < r.len() implies (#[trigger] r[i]).0 > 0 && is_member_addr(r[i].1.raft_addr)
            && is_member_addr(r[i].1.http_addr) by {}
        assert forall|i: int| 0 <= i < rows.len() implies (#[trigger] rows[i]).1.raft_addr != p[1]
            && rows[i].1.http_addr != p[2] by {
            if rows[i].1.raft_addr == p[1] {
                assert(raft_taken(rows, p[1]));
            }
            if rows[i].1.http_addr == p[2] {
                assert(http_taken(rows, p[2]));
            }
        }
        assert forall|i: int, j: int|
            0 <= i < j < r.len() implies (#[trigger] r[i]).1.raft_addr != (#[trigger] r[j]).1.raft_addr
            && r[i].1.http_addr != r[j].1.http_addr by {}
    }
}

/// Whether the rows are the others with one more node.
spec fn is_with(rows: PeerRows, r: PeerRows, id: u64, node: NodeInfoView) -> bool {
    exists|at: int| 0 <= at <= rows.len() && r == #[trigger] rows.insert(at, (id, node))
}

/// Whether one of the rows is that of the entry.
pub open spec fn is_taken(rows: PeerRows, entry: Seq<char>) -> bool {
    exists|i: int| 0 <= i < rows.len() && is_entry_of(entry, (#[trigger] rows[i]).0, rows[i].1)
}

/// Whether one of the entries is that of the row.
pub open spec fn is_given(pieces: Seq<Seq<char>>, n: nat, row: (u64, NodeInfoView)) -> bool {
    exists|i: int| 0 <= i < n && is_entry_of(trimmed(#[trigger] pieces[i]), row.0, row.1)
}

proof fn lemma_seeds(pieces: Seq<Seq<char>>, n: nat)
    requires
        n <= pieces.len(),
        seeds(pieces, n) is Ok,
    ensures
        ({
            let rows = seeds(pieces, n)->Ok_0;
            &&& is_cluster(rows)
            &&& forall|i: int|
                0 <= i < n && trimmed(#[trigger] pieces[i]).len() > 0 ==> is_taken(rows, trimmed(pieces[i]))
            &&& forall|j: int| 0 <= j < rows.len() ==> is_given(pieces, n, #[trigger] rows[j])
        }),
    decreases n,
{
    if n == 0 {
        reveal(is_cluster);
    }
    if n > 0 {
        lemma_seeds(pieces, (n - 1) as nat);
        let before = seeds(pieces, (n - 1) as nat)->Ok_0;
        let rows = seeds(pieces, n)->Ok_0;
        let piece = pieces[n - 1];
        lemma_seed_step(before, piece, n);
        if trimmed(piece).len() > 0 {
            let (id, node) = choose|id: u64, node: NodeInfoView|
                is_entry_of(trimmed(piece), id, node) && #[trigger] is_with(before, rows, id, node);
            let at = choose|at: int| 0 <= at <= before.len() && rows == #[trigger] before.insert(at, (id, node));
            assert(rows[at] == (id, node));
            assert forall|i: int|
                0 <= i < n && trimmed(#[trigger] pieces[i]).len() > 0 implies is_taken(
                rows,
                trimmed(pieces[i]),
            ) by {
                if i < n - 1 {
                    assert(is_taken(before, trimmed(pieces[i])));
                    let j = choose|j: int|
                        0 <= j < before.len() && is_entry_of(
                            trimmed(pieces[i]),
                            (#[trigger] before[j]).0,
                            before[j].1,
                        );
                    if j < at {
                        assert(rows[j] == before[j]);
                    } else {
                        assert(rows[j + 1] == before[j]);
                    }
                }
            }
            assert forall|j: int| 0 <= j < rows.len() implies is_given(pieces, n, #[trigger] rows[j]) by {
                if j == at {
                    assert(is_entry_of(trimmed(pieces[n - 1]), rows[j].0, rows[j].1));
                } else {
                    let x = if j < at {
                        before[j]
                    } else {
                        before[j - 1]
                    };
                    assert(rows[j] == x);
                    assert(is_given(pieces, (n - 1) as nat, x));
                    let i = choose|i: int|
                        0 <= i < n - 1 && is_entry_of(trimmed(#[trigger] pieces[i]), x.0, x.1);
                    assert(is_entry_of(trimmed(pieces[i]), rows[j].0, rows[j].1));
                }
            }
        } else {
            assert forall|j: int| 0 <= j < rows.len() implies is_given(pieces, n, #[trigger] rows[j]) by {
                assert(is_given(pieces, (n - 1) as nat, before[j]));
                let i = choose|i: int|
                    0 <= i < n - 1 && is_entry_of(trimmed(#[trigger] pieces[i]), rows[j].0, rows[j].1);
                assert(is_entry_of(trimmed(pieces[i]), rows[j].0, rows[j].1));
            }
        }
    }
}

/// A list of first members that is accepted gives a cluster: every entry that is not blank is a member, every
/// member stands in an entry, and there is at least one.
pub proof fn law_seeds_make_a_cluster(raw: Seq<char>)
    requires
        bootstrap_peers(raw) is Ok,
    ensures
        ({
            let rows = bootstrap_peers(raw)->Ok_0;
            let pieces = split_on(raw, ',');
            &&& rows.len() > 0
            &&& is_cluster(rows)
            &&& forall|i: int|
                0 <= i < pieces.len() && trimmed(#[trigger] pieces[i]).len() > 0 ==> is_taken(
                    rows,
                    trimmed(pieces[i]),
                )
            &&& forall|j: int| 0 <= j < rows.len() ==> is_given(pieces, pieces.len(), #[trigger] rows[j])
        }),
{
    let pieces = split_on(raw, ',');
    lemma_seeds(pieces, pieces.len());
}

proof fn lemma_peer(rows: PeerRows, n: nat, id: u64)
    requires
        ordered_peers(rows),
        n <= rows.len(),
    ensures
        peer_in(rows, n, id) matches Some(node) ==> exists|i: int|
            0 <= i < n && #[trigger] rows[i] == (id, node),
        forall|i: int| 0 <= i < n && (#[trigger] rows[i]).0 == id ==> peer_in(rows, n, id) == Some(rows[i].1),
    decreases n,
{
    if n > 0 {
        lemma_peer(rows, (n - 1) as nat, id);
        if rows[n - 1].0 == id {
            assert(rows[n - 1] == (id, rows[n - 1].1));
        }
        assert forall|i: int| 0 <= i < n && (#[trigger] rows[i]).0 == id implies peer_in(rows, n, id) == Some(
            rows[i].1,
        ) by {
            if i < n - 1 {
                assert(rows[i].0 < rows[n - 1].0);
            }
        }
    }
}

/// Whether the list has the node, with the addresses.
pub open spec fn is_in_list(rows: PeerRows, id: u64, raft_addr: Seq<char>, http_addr: Seq<char>) -> bool {
    exists|i: int|
        0 <= i < rows.len() && (#[trigger] rows[i]).0 == id && rows[i].1.raft_addr == raft_addr
            && rows[i].1.http_addr == http_addr
}

/// A node may start with a list of first members exactly where the list has it, with the addresses that it was
/// given.
pub proof fn law_nodes_stand_in_their_list(
    rows: PeerRows,
    node_id: u64,
    raft_addr: Seq<char>,
    http_addr: Seq<char>,
)
    requires
        ordered_peers(rows),
    ensures
        local_error(rows, node_id, raft_addr, http_addr) is None <==> is_in_list(
            rows,
            node_id,
            raft_addr,
            http_addr,
        ),
{
    lemma_peer(rows, rows.len(), node_id);
    if local_error(rows, node_id, raft_addr, http_addr) is None {
        let node = peer(rows, node_id)->0;
        let i = choose|i: int| 0 <= i < rows.len() && #[trigger] rows[i] == (node_id, node);
        assert(rows[i].0 == node_id);
    }
}

/// Whether the row stands in the other list, with the same addresses.
pub open spec fn is_shared(rows: PeerRows, row: (u64, NodeInfoView)) -> bool {
    exists|i: int|
        0 <= i < rows.len() && (#[trigger] rows[i]).0 == row.0 && rows[i].1.raft_addr == row.1.raft_addr
            && rows[i].1.http_addr == row.1.http_addr
}

/// A list of members differs from those of the cluster unless both have the same nodes with the same addresses.
pub proof fn law_differences_of_members_are_found(seed: PeerRows, current: PeerRows)
    requires
        ordered_peers(seed),
        ordered_peers(current),
    ensures
        member_diffs(seed, current).len() == 0 <==> {
            &&& forall|i: int| 0 <= i < seed.len() ==> is_shared(current, #[trigger] seed[i])
            &&& forall|i: int| 0 <= i < current.len() ==> is_shared(seed, #[trigger] current[i])
        },
{
    let f = |i: int| seed_diffs(current, seed[i].0, seed[i].1);
    let g = |i: int|
        one_if(
            peer(seed, current[i].0) is None,
            "集群成员表含 node "@ + dec(current[i].0 as nat) + "("@ + current[i].1.raft_addr
                + ") 但 seed 没有（seed 已过期，请更新配置）"@,
        );
    assert forall|i: int| 0 <= i < seed.len() implies ((#[trigger] f(i)).len() == 0 <==> is_shared(
        current,
        seed[i],
    )) by {
        lemma_peer(current, current.len(), seed[i].0);
        if f(i).len() == 0 {
            let node = peer(current, seed[i].0)->0;
            let j = choose|j: int| 0 <= j < current.len() && #[trigger] current[j] == (seed[i].0, node);
            assert(current[j].0 == seed[i].0);
        }
    }
    assert(member_diffs(seed, current) == gather(seed.len(), f) + gather(current.len(), g));
    if member_diffs(seed, current).len() == 0 {
        lemma_gather_empty(seed.len(), f);
        lemma_gather_empty(current.len(), g);
        assert forall|i: int| 0 <= i < seed.len() implies is_shared(current, #[trigger] seed[i]) by {
            assert(f(i).len() == 0);
        }
        assert forall|i: int| 0 <= i < current.len() implies is_shared(seed, #[trigger] current[i]) by {
            assert(g(i).len() == 0);
            lemma_peer(seed, seed.len(), current[i].0);
            let node = peer(seed, current[i].0)->0;
            let j = choose|j: int| 0 <= j < seed.len() && #[trigger] seed[j] == (current[i].0, node);
            assert(is_shared(current, seed[j]));
            let m = choose|m: int|
                0 <= m < current.len() && (#[trigger] current[m]).0 == seed[j].0 && current[m].1.raft_addr
                    == seed[j].1.raft_addr && current[m].1.http_addr == seed[j].1.http_addr;
            if m < i {
                assert(current[m].0 < current[i].0);
            } else if i < m {
                assert(current[i].0 < current[m].0);
            }
            assert(seed[j].0 == current[i].0);
        }
    }
    if (forall|i: int| 0 <= i < seed.len() ==> is_shared(current, #[trigger] seed[i])) && (forall|i: int|
        0 <= i < current.len() ==> is_shared(seed, #[trigger] current[i])) {
        assert forall|i: int| 0 <= i < seed.len() implies (#[trigger] f(i)).len() == 0 by {
            assert(is_shared(current, seed[i]));
        }
        assert forall|i: int| 0 <= i < current.len() implies (#[trigger] g(i)).len() == 0 by {
            assert(is_shared(seed, current[i]));
            lemma_peer(seed, seed.len(), current[i].0);
        }
        lemma_nothing_gathered(seed.len(), f);
        lemma_nothing_gathered(current.len(), g);
    }
}

/// A node that has stored something goes on from it, whatever it is told. One that has not begins a cluster, of
/// its own or of the list that it stands in, or joins one; told nothing, it does not start.
pub proof fn law_nodes_start_as_told(
    bootstrap: bool,
    peers: Option<Seq<char>>,
    join: Option<Seq<char>>,
    current: Option<PeerRows>,
    node_id: u64,
    raft_addr: Seq<char>,
    http_addr: Seq<char>,
)
    ensures
        plan(bootstrap, peers, join, true, current, node_id, raft_addr, http_addr) matches Ok(
            StartPlanView::Resume { warning },
        ) && (peers is None ==> warning is None),
        ({
            let p = plan(bootstrap, peers, join, false, current, node_id, raft_addr, http_addr);
            &&& bootstrap ==> p == Ok::<StartPlanView, Seq<char>>(StartPlanView::Single)
            &&& !bootstrap && peers is Some ==> match p {
                Ok(x) => x matches StartPlanView::Seed(rows) && bootstrap_peers(peers->0) == Ok::<
                    PeerRows,
                    Seq<char>,
                >(rows) && is_in_list(rows, node_id, raft_addr, http_addr),
                Err(_) => match bootstrap_peers(peers->0) {
                    Err(_) => true,
                    Ok(rows) => !is_in_list(rows, node_id, raft_addr, http_addr),
                },
            }
            &&& !bootstrap && peers is None && join is Some ==> p == Ok::<StartPlanView, Seq<char>>(
                StartPlanView::Join(join->0),
            )
            &&& !bootstrap && peers is None && join is None ==> p is Err
        }),
{
    if peers is Some && bootstrap_peers(peers->0) is Ok {
        let rows = bootstrap_peers(peers->0)->Ok_0;
        law_seeds_make_a_cluster(peers->0);
        reveal(is_cluster);
        law_nodes_stand_in_their_list(rows, node_id, raft_addr, http_addr);
    }
}

/// A node that was added is found under its id, and all others as before.
pub proof fn law_added_nodes_are_found(rows: PeerRows, id: u64, node: NodeInfoView, other: u64)
    requires
        ordered_peers(rows),
        !has_peer(rows, id),
    ensures
        peer(with_peer(rows, id, node), id) == Some(node),
        other != id ==> peer(with_peer(rows, id, node), other) == peer(rows, other),
        ordered_peers(with_peer(rows, id, node)),
{
    let at = lemma_with_peer(rows, id, node);
    let r = with_peer(rows, id, node);
    assert forall|i: int| 0 <= i < r.len() implies (#[trigger] r[i]) == (if i < at {
        rows[i]
    } else if i == at {
        (id, node)
    } else {
        rows[i - 1]
    }) by {}
    assert forall|i: int, j: int| 0 <= i < j < r.len() implies (#[trigger] r[i]).0 < (#[trigger] r[j]).0 by {}
    lemma_peer(r, r.len(), id);
    lemma_peer(r, r.len(), other);
    lemma_peer(rows, rows.len(), other);
    assert(r[at].0 == id);
    if other != id {
        if peer(rows, other) is Some {
            let n = peer(rows, other)->0;
            let i = choose|i: int| 0 <= i < rows.len() && #[trigger] rows[i] == (other, n);
            if i < at {
                assert(r[i] == rows[i]);
            } else {
                assert(r[i + 1] == rows[i]);
            }
        }
        if peer(r, other) is Some {
            let n = peer(r, other)->0;
            let i = choose|i: int| 0 <= i < r.len() && #[trigger] r[i] == (other, n);
            if i < at {
                assert(rows[i] == r[i]);
            } else {
                assert(rows[i - 1] == r[i]);
            }
        }
    }
}

} // verus!
