//! The first members of a cluster, and how they compare with the members that it has.
use vstd::prelude::*;
use vstd::string::StringExecFns;

use crate::dup::{Dup, views};
use crate::gather::{gather, one_if};
use crate::text::{
    dec, decimal, join, joined, number_of, parse_number, same, split, split_on, trim, trimmed,
};

verus! {

/// The addresses of a node.
#[derive(Debug, PartialEq)]
pub struct NodeInfo {
    pub grpc_addr: String,
    pub http_addr: String,
    pub raft_addr: String,
}

/// What a [`NodeInfo`] stands for.
#[verifier::ext_equal]
pub struct NodeInfoView {
    pub grpc_addr: Seq<char>,
    pub http_addr: Seq<char>,
    pub raft_addr: Seq<char>,
}

impl View for NodeInfo {
    type V = NodeInfoView;

    open spec fn view(&self) -> NodeInfoView {
        NodeInfoView {
            grpc_addr: self.grpc_addr@,
            http_addr: self.http_addr@,
            raft_addr: self.raft_addr@,
        }
    }
}

impl Dup for NodeInfo {
    fn dup(&self) -> (r: Self) {
        NodeInfo {
            grpc_addr: self.grpc_addr.clone(),
            http_addr: self.http_addr.clone(),
            raft_addr: self.raft_addr.clone(),
        }
    }
}

impl Clone for NodeInfo {
    fn clone(&self) -> (r: Self)
        ensures
            r@ == self@,
    {
        self.dup()
    }
}

/// The nodes of a cluster, in ascending order of their ids.
#[derive(Debug, PartialEq)]
pub struct Peers {
    entries: Vec<(u64, NodeInfo)>,
}

/// The rows of [`Peers`].
pub type PeerRows = Seq<(u64, NodeInfoView)>;

impl View for Peers {
    type V = PeerRows;

    closed spec fn view(&self) -> PeerRows {
        Seq::new(self.entries@.len(), |i: int| (self.entries@[i].0, self.entries@[i].1@))
    }
}

/// Rows in strictly ascending order of the ids.
pub open spec fn ordered_peers(rows: PeerRows) -> bool {
    forall|i: int, j: int| 0 <= i < j < rows.len() ==> (#[trigger] rows[i]).0 < (#[trigger] rows[j]).0
}

/// Whether there is a node with the id.
pub open spec fn has_peer(rows: PeerRows, id: u64) -> bool {
    exists|i: int| 0 <= i < rows.len() && (#[trigger] rows[i]).0 == id
}

/// The node with the id, among the first `n`.
pub open spec fn peer_in(rows: PeerRows, n: nat, id: u64) -> Option<NodeInfoView>
    decreases n,
{
    if n == 0 {
        None
    } else if rows[n - 1].0 == id {
        Some(rows[n - 1].1)
    } else {
        peer_in(rows, (n - 1) as nat, id)
    }
}

/// The node with the id.
pub open spec fn peer(rows: PeerRows, id: u64) -> Option<NodeInfoView> {
    peer_in(rows, rows.len(), id)
}

/// The rows with one more node.
pub open spec fn with_peer(rows: PeerRows, id: u64, node: NodeInfoView) -> PeerRows
    decreases rows.len(),
{
    if rows.len() > 0 && rows.last().0 > id {
        with_peer(rows.drop_last(), id, node).push(rows.last())
    } else {
        rows.push((id, node))
    }
}

impl Peers {
    #[verifier::type_invariant]
    spec fn ordered(self) -> bool {
        ordered_peers(self@)
    }

    pub fn new() -> (r: Self)
        ensures
            r@ == PeerRows::empty(),
    {
        let r: Peers = Peers { entries: Vec::new() };
        assert(r@ =~= Seq::empty());
        r
    }

    pub fn len(&self) -> (r: usize)
        ensures
            r == self@.len(),
            ordered_peers(self@),
    {
        proof {
            use_type_invariant(self);
        }
        self.entries.len()
    }

    /// The id and the addresses of the node at `i`.
    pub fn at(&self, i: usize) -> (r: (u64, &NodeInfo))
        requires
            i < self@.len(),
        ensures
            self@[i as int] == (r.0, r.1@),
    {
        (self.entries[i].0, &self.entries[i].1)
    }

    /// The node with the id.
    pub fn get(&self, id: u64) -> (r: Option<&NodeInfo>)
        ensures
            match r {
                Some(n) => peer(self@, id) == Some(n@),
                None => peer(self@, id) is None,
            },
    {
        let mut i: usize = self.entries.len();
        while i > 0
            invariant
                i <= self.entries@.len() == self@.len(),
                peer(self@, id) == peer_in(self@, i as nat, id),
            decreases i,
        {
            i = i - 1;
            assert(self@[i as int] == (self.entries@[i as int].0, self.entries@[i as int].1@));
            if self.entries[i].0 == id {
                return Some(&self.entries[i].1);
            }
        }
        None
    }

    /// Adds a node whose id is not there yet.
    pub fn insert(&mut self, id: u64, node: NodeInfo) -> (r: bool)
        ensures
            r == !has_peer(old(self)@, id),
            final(self)@ == if r {
                with_peer(old(self)@, id, node@)
            } else {
                old(self)@
            },
    {
        proof {
            use_type_invariant(&*self);
        }
        let ghost rows = self@;
        let ghost v = node@;
        let mut i: usize = self.entries.len();
        assert(rows.take(i as int) =~= rows);
        assert(with_peer(rows, id, v) =~= with_peer(rows.take(i as int), id, v) + rows.skip(i as int));
        while i > 0 && self.entries[i - 1].0 > id
            invariant
                i <= self.entries@.len() == rows.len(),
                rows == self@,
                forall|j: int| i <= j < rows.len() ==> (#[trigger] rows[j]).0 > id,
                with_peer(rows, id, v) == with_peer(rows.take(i as int), id, v) + rows.skip(i as int),
            decreases i,
        {
            proof {
                let t = rows.take(i as int);
                assert(t.last() == rows[i - 1]);
                assert(rows[i - 1].0 == self.entries@[i - 1].0);
                assert(t.drop_last() =~= rows.take(i - 1));
                assert(rows.skip(i - 1) =~= seq![rows[i - 1]] + rows.skip(i as int));
                assert(with_peer(rows.take(i - 1), id, v) + rows.skip(i - 1) =~= with_peer(t, id, v)
                    + rows.skip(i as int));
            }
            i = i - 1;
        }
        if i > 0 && self.entries[i - 1].0 == id {
            assert(rows[i - 1].0 == id);
            return false;
        }
        proof {
            assert(!has_peer(rows, id)) by {
                if has_peer(rows, id) {
                    let j = choose|j: int| 0 <= j < rows.len() && (#[trigger] rows[j]).0 == id;
                    if j < i - 1 {
                        assert(rows[j].0 < rows[i - 1].0);
                    }
                }
            }
            assert(i > 0 ==> rows.take(i as int).last() == rows[i - 1]);
            assert(i > 0 ==> rows[i - 1].0 < id) by {
                if i > 0 {
                    assert(rows[i - 1].0 == self.entries@[i - 1].0);
                }
            }
            assert forall|j: int| 0 <= j < i implies (#[trigger] rows[j]).0 < id by {
                if j < i - 1 {
                    assert(rows[j].0 < rows[i - 1].0);
                }
            }
        }
        let mut entries: Vec<(u64, NodeInfo)> = Vec::new();
        core::mem::swap(&mut self.entries, &mut entries);
        let ghost was = entries@;
        entries.insert(i, (id, node));
        proof {
            let made = Peers { entries };
            assert(made@ =~= rows.take(i as int).push((id, v)) + rows.skip(i as int));
            assert forall|a: int, b: int| 0 <= a < b < made@.len() implies (#[trigger] made@[a]).0 < (
            #[trigger] made@[b]).0 by {
                let x: int = if a < i { a } else { a - 1 };
                let y: int = if b < i { b } else { b - 1 };
                if a != i {
                    assert(made@[a] == rows[x]);
                }
                if b != i {
                    assert(made@[b] == rows[y]);
                }
            }
        }
        self.entries = entries;
        assert(self@ =~= rows.take(i as int).push((id, v)) + rows.skip(i as int));
        true
    }
}

pub open spec fn seed_error(idx: nat, rest: Seq<char>) -> Seq<char> {
    "--bootstrap-peers 第 "@ + dec(idx) + " 项"@ + rest
}

/// What is wrong with an address of a seed; nothing where it is a host and a port.
pub open spec fn addr_error(label: Seq<char>, addr: Seq<char>, idx: nat) -> Option<Seq<char>> {
    let parts = split_on(addr, ':');
    if parts.len() != 2 {
        Some(
            seed_error(
                idx,
                " "@ + label + " 须为 host:port 形式（暂不支持 IPv6 字面量）: "@ + addr,
            ),
        )
    } else if parts[0].len() == 0 || parts[0] == "0.0.0.0"@ || parts[0] == "::"@ {
        Some(
            seed_error(
                idx,
                " "@ + label
                    + " host 不能为不可路由通配地址（0.0.0.0/::；容器内请用服务名或具体 IP，见坑 C1）: "@
                    + addr,
            ),
        )
    } else if number_of(parts[1], 65535) is None {
        Some(seed_error(idx, " "@ + label + " 端口须为 1-65535 的数值: "@ + addr))
    } else if number_of(parts[1], 65535) == Some(0nat) {
        Some(seed_error(idx, " "@ + label + " 端口不能为 0: "@ + addr))
    } else {
        None
    }
}

fn seed_message(idx: u64, a: &str, b: &str, c: &str, d: &str) -> (r: String)
    ensures
        r@ == seed_error(idx as nat, a@ + b@ + c@ + d@),
{
    let mut rest: String = a.to_owned();
    rest.append(b);
    rest.append(c);
    rest.append(d);
    let mut m: String = "--bootstrap-peers 第 ".to_owned();
    m.append(decimal(idx).as_str());
    m.append(" 项");
    m.append(rest.as_str());
    m
}

/// Checks an address of a seed: a host that can be reached and a port.
pub fn validate_seed_addr(label: &str, addr: &str, idx: u64) -> (r: Result<(), String>)
    ensures
        match r {
            Ok(_) => addr_error(label@, addr@, idx as nat) is None,
            Err(m) => addr_error(label@, addr@, idx as nat) == Some(m@),
        },
{
    let parts: Vec<String> = split(addr, ':');
    let ghost seen = split_on(addr@, ':');
    assert(seen == views(parts@));
    if parts.len() != 2 {
        return Err(
            seed_message(
                idx,
                " ",
                label,
                " 须为 host:port 形式（暂不支持 IPv6 字面量）: ",
                addr,
            ),
        );
    }
    assert(seen[0] == parts@[0]@ && seen[1] == parts@[1]@);
    let host: &str = parts[0].as_str();
    if host.is_empty() || same(host, "0.0.0.0") || same(host, "::") {
        return Err(
            seed_message(
                idx,
                " ",
                label,
                " host 不能为不可路由通配地址（0.0.0.0/::；容器内请用服务名或具体 IP，见坑 C1）: ",
                addr,
            ),
        );
    }
    match parse_number(parts[1].as_str(), 65535) {
        None => Err(seed_message(idx, " ", label, " 端口须为 1-65535 的数值: ", addr)),
        Some(port) => {
            if port == 0 {
                Err(seed_message(idx, " ", label, " 端口不能为 0: ", addr))
            } else {
                Ok(())
            }
        },
    }
}

pub open spec fn raft_taken(rows: PeerRows, addr: Seq<char>) -> bool {
    exists|i: int| 0 <= i < rows.len() && (#[trigger] rows[i]).1.raft_addr == addr
}

pub open spec fn http_taken(rows: PeerRows, addr: Seq<char>) -> bool {
    exists|i: int| 0 <= i < rows.len() && (#[trigger] rows[i]).1.http_addr == addr
}

/// The nodes with what one entry of the list adds: `id@raft_addr@http_addr`. An empty entry adds nothing.
pub open spec fn seed_step(rows: PeerRows, piece: Seq<char>, idx: nat) -> Result<PeerRows, Seq<char>> {
    let entry = trimmed(piece);
    let parts = split_on(entry, '@');
    if entry.len() == 0 {
        Ok(rows)
    } else if parts.len() == 2 {
        Err(
            seed_error(
                idx,
                "缺少 http_addr（必须为 node_id@raft_addr@http_addr 三段式；http_addr 用于 leader 重定向/join 跟随）: "@
                    + entry,
            ),
        )
    } else if parts.len() != 3 {
        Err(seed_error(idx, "格式错误（应为 node_id@raft_addr@http_addr）: "@ + entry))
    } else {
        match number_of(trimmed(parts[0]), u64::MAX as nat) {
            None => Err(seed_error(idx, " node_id 非法: "@ + parts[0])),
            Some(id) => if id == 0 {
                Err(seed_error(idx, " node_id 不能为 0"@))
            } else if addr_error("raft_addr"@, parts[1], idx) is Some {
                Err(addr_error("raft_addr"@, parts[1], idx)->0)
            } else if addr_error("http_addr"@, parts[2], idx) is Some {
                Err(addr_error("http_addr"@, parts[2], idx)->0)
            } else if raft_taken(rows, parts[1]) {
                Err(
                    seed_error(
                        idx,
                        " raft_addr 重复: "@ + parts[1] + "（两个节点不能共用同一 raft 地址）"@,
                    ),
                )
            } else if http_taken(rows, parts[2]) {
                Err(seed_error(idx, " http_addr 重复: "@ + parts[2]))
            } else if has_peer(rows, id as u64) {
                Err(seed_error(idx, " node_id 重复: "@ + dec(id)))
            } else {
                Ok(
                    with_peer(
                        rows,
                        id as u64,
                        NodeInfoView {
                            grpc_addr: Seq::empty(),
                            http_addr: parts[2],
                            raft_addr: parts[1],
                        },
                    ),
                )
            },
        }
    }
}

/// The nodes that the first `n` entries of a list give.
pub open spec fn seeds(pieces: Seq<Seq<char>>, n: nat) -> Result<PeerRows, Seq<char>>
    decreases n,
{
    if n == 0 {
        Ok(Seq::empty())
    } else {
        match seeds(pieces, (n - 1) as nat) {
            Err(e) => Err(e),
            Ok(rows) => seed_step(rows, pieces[n - 1], n),
        }
    }
}

/// The nodes that a list gives: entries between commas, at least one.
pub open spec fn bootstrap_peers(raw: Seq<char>) -> Result<PeerRows, Seq<char>> {
    let pieces = split_on(raw, ',');
    match seeds(pieces, pieces.len()) {
        Err(e) => Err(e),
        Ok(rows) => if rows.len() == 0 {
            Err("--bootstrap-peers 为空（须包含集群全部节点）"@)
        } else {
            Ok(rows)
        },
    }
}

proof fn lemma_seeds_error(pieces: Seq<Seq<char>>, a: nat, b: nat)
    requires
        a <= b,
        seeds(pieces, a) is Err,
    ensures
        seeds(pieces, b) == seeds(pieces, a),
    decreases b,
{
    if a < b {
        lemma_seeds_error(pieces, a, (b - 1) as nat);
    }
}

fn addr_taken(peers: &Peers, addr: &str, raft: bool) -> (r: bool)
    ensures
        r == if raft {
            raft_taken(peers@, addr@)
        } else {
            http_taken(peers@, addr@)
        },
{
    let n: usize = peers.len();
    let mut i: usize = 0;
    while i < n
        invariant
            i <= n == peers@.len(),
            forall|j: int|
                0 <= j < i ==> (if raft {
                    (#[trigger] peers@[j]).1.raft_addr
                } else {
                    peers@[j].1.http_addr
                }) != addr@,
        decreases n - i,
    {
        let (_, node) = peers.at(i);
        let own: &str = if raft {
            node.raft_addr.as_str()
        } else {
            node.http_addr.as_str()
        };
        if same(own, addr) {
            assert(peers@[i as int].1 == node@);
            return true;
        }
        i = i + 1;
    }
    false
}

/// Adds what one entry of the list gives.
fn add_seed(peers: &mut Peers, piece: &str, idx: u64) -> (r: Result<(), String>)
    ensures
        match r {
            Ok(_) => seed_step(old(peers)@, piece@, idx as nat) == Ok::<PeerRows, Seq<char>>(
                final(peers)@,
            ),
            Err(m) => seed_step(old(peers)@, piece@, idx as nat) == Err::<PeerRows, Seq<char>>(m@),
        },
{
    let entry: &str = trim(piece);
    if entry.is_empty() {
        return Ok(());
    }
    let parts: Vec<String> = split(entry, '@');
    let ghost seen = split_on(entry@, '@');
    assert(seen == views(parts@));
    if parts.len() == 2 {
        let mut m: String = seed_message(
            idx,
            "缺少 http_addr（必须为 node_id@raft_addr@http_addr 三段式；http_addr 用于 leader 重定向/join 跟随）: ",
            entry,
            "",
            "",
        );
        proof {
            reveal_strlit("");
            assert(""@ =~= Seq::empty());
            let head = "缺少 http_addr（必须为 node_id@raft_addr@http_addr 三段式；http_addr 用于 leader 重定向/join 跟随）: "@;
            assert(head + entry@ + ""@ + ""@ =~= head + entry@);
        }
        return Err(m);
    }
    if parts.len() != 3 {
        let m: String = seed_message(
            idx,
            "格式错误（应为 node_id@raft_addr@http_addr）: ",
            entry,
            "",
            "",
        );
        proof {
            reveal_strlit("");
            assert(""@ =~= Seq::empty());
            let head = "格式错误（应为 node_id@raft_addr@http_addr）: "@;
            assert(head + entry@ + ""@ + ""@ =~= head + entry@);
        }
        return Err(m);
    }
    assert(seen[0] == parts@[0]@ && seen[1] == parts@[1]@ && seen[2] == parts@[2]@);
    let id_text: &str = parts[0].as_str();
    let raft_addr: &str = parts[1].as_str();
    let http_addr: &str = parts[2].as_str();
    proof {
        reveal_strlit("");
        assert(""@ =~= Seq::empty());
    }
    let id: u64 = match parse_number(trim(id_text), u64::MAX) {
        Some(id) => id,
        None => {
            let m: String = seed_message(idx, " node_id 非法: ", id_text, "", "");
            assert(" node_id 非法: "@ + id_text@ + ""@ + ""@ =~= " node_id 非法: "@ + id_text@);
            return Err(m);
        },
    };
    if id == 0 {
        let m: String = seed_message(idx, " node_id 不能为 0", "", "", "");
        assert(" node_id 不能为 0"@ + ""@ + ""@ + ""@ =~= " node_id 不能为 0"@);
        return Err(m);
    }
    validate_seed_addr("raft_addr", raft_addr, idx)?;
    validate_seed_addr("http_addr", http_addr, idx)?;
    if addr_taken(peers, raft_addr, true) {
        let m: String = seed_message(
            idx,
            " raft_addr 重复: ",
            raft_addr,
            "（两个节点不能共用同一 raft 地址）",
            "",
        );
        assert(" raft_addr 重复: "@ + raft_addr@ + "（两个节点不能共用同一 raft 地址）"@ + ""@
            =~= " raft_addr 重复: "@ + raft_addr@ + "（两个节点不能共用同一 raft 地址）"@);
        return Err(m);
    }
    if addr_taken(peers, http_addr, false) {
        let m: String = seed_message(idx, " http_addr 重复: ", http_addr, "", "");
        assert(" http_addr 重复: "@ + http_addr@ + ""@ + ""@ =~= " http_addr 重复: "@ + http_addr@);
        return Err(m);
    }
    let node: NodeInfo = NodeInfo {
        grpc_addr: String::new(),
        http_addr: http_addr.to_owned(),
        raft_addr: raft_addr.to_owned(),
    };
    if !peers.insert(id, node) {
        let d: String = decimal(id);
        let m: String = seed_message(idx, " node_id 重复: ", d.as_str(), "", "");
        assert(" node_id 重复: "@ + d@ + ""@ + ""@ =~= " node_id 重复: "@ + d@);
        return Err(m);
    }
    Ok(())
}

/// Reads the list of the first members of a cluster.
pub fn parse_bootstrap_peers(raw: &str) -> (r: Result<Peers, String>)
    ensures
        match r {
            Ok(p) => bootstrap_peers(raw@) == Ok::<PeerRows, Seq<char>>(p@),
            Err(m) => bootstrap_peers(raw@) == Err::<PeerRows, Seq<char>>(m@),
        },
{
    let pieces: Vec<String> = split(raw, ',');
    let ghost all = split_on(raw@, ',');
    let mut peers: Peers = Peers::new();
    let mut i: usize = 0;
    while i < pieces.len()
        invariant
            i <= pieces@.len(),
            all == views(pieces@),
            all == split_on(raw@, ','),
            seeds(all, i as nat) == Ok::<PeerRows, Seq<char>>(peers@),
        decreases pieces@.len() - i,
    {
        assert(all[i as int] == pieces@[i as int]@);
        proof {
            if seeds(all, (i + 1) as nat) is Err {
                lemma_seeds_error(all, (i + 1) as nat, all.len());
            }
        }
        let idx: u64 = (i as u64) + 1;
        add_seed(&mut peers, pieces[i].as_str(), idx)?;
        i = i + 1;
    }
    if peers.len() == 0 {
        return Err("--bootstrap-peers 为空（须包含集群全部节点）".to_owned());
    }
    Ok(peers)
}

/// What is wrong with the entry of this node in the list; nothing where it agrees with its own addresses.
pub open spec fn local_error(
    rows: PeerRows,
    node_id: u64,
    raft_addr: Seq<char>,
    http_addr: Seq<char>,
) -> Option<Seq<char>> {
    match peer(rows, node_id) {
        None => Some(
            "--bootstrap-peers 不含本节点 node_id="@ + dec(node_id as nat)
                + "（seed map 必须包含集群全部节点）"@,
        ),
        Some(local) => if local.raft_addr != raft_addr {
            Some(
                "--bootstrap-peers 中本节点 raft_addr("@ + local.raft_addr + ") 与 --raft-addr("@
                    + raft_addr + ") 不一致"@,
            )
        } else if local.http_addr != http_addr {
            Some(
                "--bootstrap-peers 中本节点 http_addr("@ + local.http_addr + ") 与 --http-addr("@
                    + http_addr + ") 不一致"@,
            )
        } else {
            None
        },
    }
}

fn text5(a: &str, b: &str, c: &str, d: &str, e: &str) -> (r: String)
    ensures
        r@ == a@ + b@ + c@ + d@ + e@,
{
    let mut m: String = a.to_owned();
    m.append(b);
    m.append(c);
    m.append(d);
    m.append(e);
    m
}

/// Checks that the list holds this node, with the addresses that it has.
pub fn validate_bootstrap_peers(peers: &Peers, node_id: u64, raft_addr: &str, http_addr: &str) -> (r:
    Result<(), String>)
    ensures
        match r {
            Ok(_) => local_error(peers@, node_id, raft_addr@, http_addr@) is None,
            Err(m) => local_error(peers@, node_id, raft_addr@, http_addr@) == Some(m@),
        },
{
    let local: &NodeInfo = match peers.get(node_id) {
        Some(n) => n,
        None => {
            let mut m: String = "--bootstrap-peers 不含本节点 node_id=".to_owned();
            m.append(decimal(node_id).as_str());
            m.append("（seed map 必须包含集群全部节点）");
            return Err(m);
        },
    };
    if !same(local.raft_addr.as_str(), raft_addr) {
        return Err(
            text5(
                "--bootstrap-peers 中本节点 raft_addr(",
                local.raft_addr.as_str(),
                ") 与 --raft-addr(",
                raft_addr,
                ") 不一致",
            ),
        );
    }
    if !same(local.http_addr.as_str(), http_addr) {
        return Err(
            text5(
                "--bootstrap-peers 中本节点 http_addr(",
                local.http_addr.as_str(),
                ") 与 --http-addr(",
                http_addr,
                ") 不一致",
            ),
        );
    }
    Ok(())
}

/// How a node of the list differs from the members of the cluster.
pub open spec fn seed_diffs(current: PeerRows, id: u64, node: NodeInfoView) -> Seq<Seq<char>> {
    match peer(current, id) {
        None => seq![
            "seed 含 node "@ + dec(id as nat)
                + " 但集群成员表没有（若为新增节点请用 --join 加入，seed 不驱动运行期成员变更）"@,
        ],
        Some(cur) => one_if(
            cur.raft_addr != node.raft_addr,
            "node "@ + dec(id as nat) + " raft_addr 不一致：seed="@ + node.raft_addr + " 集群="@
                + cur.raft_addr,
        ) + one_if(
            cur.http_addr != node.http_addr,
            "node "@ + dec(id as nat) + " http_addr 不一致：seed="@ + node.http_addr + " 集群="@
                + cur.http_addr,
        ),
    }
}

/// How the list differs from the members of the cluster.
pub open spec fn member_diffs(seed: PeerRows, current: PeerRows) -> Seq<Seq<char>> {
    gather(seed.len(), |i: int| seed_diffs(current, seed[i].0, seed[i].1)) + gather(
        current.len(),
        |i: int|
            one_if(
                peer(seed, current[i].0) is None,
                "集群成员表含 node "@ + dec(current[i].0 as nat) + "("@ + current[i].1.raft_addr
                    + ") 但 seed 没有（seed 已过期，请更新配置）"@,
            ),
    )
}

fn add_text(out: &mut Vec<String>, m: String)
    ensures
        views(final(out)@) == views(old(out)@).push(m@),
{
    let ghost before = views(out@);
    let ghost t = m@;
    out.push(m);
    assert(views(out@) =~= before.push(t));
}

fn diff_message(id: u64, what: &str, a: &str, b: &str) -> (r: String)
    ensures
        r@ == "node "@ + dec(id as nat) + what@ + a@ + " 集群="@ + b@,
{
    let mut m: String = "node ".to_owned();
    m.append(decimal(id).as_str());
    m.append(what);
    m.append(a);
    m.append(" 集群=");
    m.append(b);
    m
}

/// How the list differs from the members of the cluster; nothing where they agree.
pub fn membership_diff(seed: &Peers, current: &Peers) -> (r: Option<String>)
    ensures
        match r {
            Some(m) => member_diffs(seed@, current@).len() > 0 && m@ == joined(
                member_diffs(seed@, current@),
                "；"@,
            ),
            None => member_diffs(seed@, current@).len() == 0,
        },
{
    let mut out: Vec<String> = Vec::new();
    let ghost f = |i: int| seed_diffs(current@, seed@[i].0, seed@[i].1);
    let n: usize = seed.len();
    let mut i: usize = 0;
    assert(views(out@) =~= gather(0, f));
    while i < n
        invariant
            i <= n == seed@.len(),
            f == |i: int| seed_diffs(current@, seed@[i].0, seed@[i].1),
            views(out@) == gather(i as nat, f),
        decreases n - i,
    {
        let ghost before = views(out@);
        let (id, node) = seed.at(i);
        assert(gather((i + 1) as nat, f) == gather(i as nat, f) + f(i as int));
        match current.get(id) {
            None => {
                let mut m: String = "seed 含 node ".to_owned();
                m.append(decimal(id).as_str());
                m.append(
                    " 但集群成员表没有（若为新增节点请用 --join 加入，seed 不驱动运行期成员变更）",
                );
                add_text(&mut out, m);
            },
            Some(cur) => {
                if !same(cur.raft_addr.as_str(), node.raft_addr.as_str()) {
                    add_text(
                        &mut out,
                        diff_message(
                            id,
                            " raft_addr 不一致：seed=",
                            node.raft_addr.as_str(),
                            cur.raft_addr.as_str(),
                        ),
                    );
                }
                if !same(cur.http_addr.as_str(), node.http_addr.as_str()) {
                    add_text(
                        &mut out,
                        diff_message(
                            id,
                            " http_addr 不一致：seed=",
                            node.http_addr.as_str(),
                            cur.http_addr.as_str(),
                        ),
                    );
                }
            },
        }
        assert(views(out@) =~= before + f(i as int));
        i = i + 1;
    }
    let ghost head = views(out@);
    let ghost g = |i: int|
        one_if(
            peer(seed@, current@[i].0) is None,
            "集群成员表含 node "@ + dec(current@[i].0 as nat) + "("@ + current@[i].1.raft_addr
                + ") 但 seed 没有（seed 已过期，请更新配置）"@,
        );
    let n: usize = current.len();
    let mut i: usize = 0;
    assert(views(out@) =~= head + gather(0, g));
    while i < n
        invariant
            i <= n == current@.len(),
            g == |i: int|
                one_if(
                    peer(seed@, current@[i].0) is None,
                    "集群成员表含 node "@ + dec(current@[i].0 as nat) + "("@
                        + current@[i].1.raft_addr + ") 但 seed 没有（seed 已过期，请更新配置）"@,
                ),
            views(out@) == head + gather(i as nat, g),
        decreases n - i,
    {
        let ghost before = views(out@);
        let (id, node) = current.at(i);
        assert(gather((i + 1) as nat, g) == gather(i as nat, g) + g(i as int));
        if seed.get(id).is_none() {
            let d: String = decimal(id);
            add_text(
                &mut out,
                text5(
                    "集群成员表含 node ",
                    d.as_str(),
                    "(",
                    node.raft_addr.as_str(),
                    ") 但 seed 没有（seed 已过期，请更新配置）",
                ),
            );
        }
        assert(views(out@) =~= before + g(i as int));
        assert(views(out@) =~= head + gather((i + 1) as nat, g));
        i = i + 1;
    }
    assert(views(out@) == member_diffs(seed@, current@));
    if out.len() == 0 {
        None
    } else {
        Some(join(&out, "；"))
    }
}

} // verus!
