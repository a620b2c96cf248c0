//! How a node starts: what its options must hold, and whether it begins a cluster, joins one or goes on.
use vstd::prelude::*;
use vstd::string::StringExecFns;

use crate::api::text_or;
use crate::cluster::{
    PeerRows, Peers, bootstrap_peers, local_error, member_diffs, membership_diff,
    parse_bootstrap_peers, validate_bootstrap_peers,
};
use crate::dup::view_opt;
use crate::error::{Error, ErrorKind};
use crate::model::ReadMode;
use crate::text::joined;
use crate::write::redirect;

verus! {

/// Checks that there is a master key, unless the node may run without one.
pub fn check_master_key(has_key: bool, allow_none: bool) -> (r: Result<(), String>)
    ensures
        match r {
            Ok(_) => has_key || allow_none,
            Err(m) => !has_key && !allow_none && m@
                == "缺少主密钥（DSH_MASTER_KEY 或 --master-key-file）；若为无 secret 的开发/演示环境请显式 --allow-no-master-key"@,
        },
{
    if has_key || allow_none {
        Ok(())
    } else {
        Err(
            "缺少主密钥（DSH_MASTER_KEY 或 --master-key-file）；若为无 secret 的开发/演示环境请显式 --allow-no-master-key".to_owned(),
        )
    }
}

/// What a node of a cluster cannot do without.
#[derive(Debug)]
pub struct ClusterOptions {
    pub data_dir: String,
    pub node_id: u64,
    pub join_token: String,
    pub raft_token: String,
}

/// The options of a node of a cluster, or what is missing first.
pub fn cluster_options(
    data_dir: Option<String>,
    node_id: Option<u64>,
    join_token: Option<String>,
    raft_token: Option<String>,
) -> (r: Result<ClusterOptions, String>)
    ensures
        match r {
            Ok(o) => data_dir == Some(o.data_dir) && node_id == Some(o.node_id) && join_token == Some(
                o.join_token,
            ) && raft_token == Some(o.raft_token),
            Err(m) => if data_dir is None {
                m@ == "集群模式需要 --data-dir"@
            } else if node_id is None {
                m@ == "集群模式需要 --node-id"@
            } else if join_token is None {
                m@ == "集群模式需要 --join-token（join 端点鉴权；集群内所有节点传相同值）"@
            } else {
                raft_token is None && m@
                    == "集群模式需要 --raft-token（raft RPC 鉴权；集群内所有节点传相同值）"@
            },
        },
{
    match data_dir {
        Some(d) => match node_id {
            Some(n) => match join_token {
                Some(j) => match raft_token {
                    Some(t) => Ok(
                        ClusterOptions { data_dir: d, node_id: n, join_token: j, raft_token: t },
                    ),
                    None => Err(
                        "集群模式需要 --raft-token（raft RPC 鉴权；集群内所有节点传相同值）".to_owned(),
                    ),
                },
                None => Err(
                    "集群模式需要 --join-token（join 端点鉴权；集群内所有节点传相同值）".to_owned(),
                ),
            },
            None => Err("集群模式需要 --node-id".to_owned()),
        },
        None => Err("集群模式需要 --data-dir".to_owned()),
    }
}

/// How a node of a cluster starts.
#[derive(Debug)]
pub enum StartPlan {
    /// It begins a cluster of one.
    Single,
    /// It begins a cluster of these members.
    Seed(Peers),
    /// It asks the node with the URL to join.
    Join(String),
    /// It goes on from what it has stored. A warning says that the list of first members is not what
    /// the cluster has.
    Resume { warning: Option<String> },
}

/// What a [`StartPlan`] stands for.
pub enum StartPlanView {
    Single,
    Seed(PeerRows),
    Join(Seq<char>),
    Resume { warning: Option<Seq<char>> },
}

impl View for StartPlan {
    type V = StartPlanView;

    open spec fn view(&self) -> StartPlanView {
        match *self {
            StartPlan::Single => StartPlanView::Single,
            StartPlan::Seed(p) => StartPlanView::Seed(p@),
            StartPlan::Join(u) => StartPlanView::Join(u@),
            StartPlan::Resume { warning } => StartPlanView::Resume { warning: view_opt(warning) },
        }
    }
}

/// The warning of a node that goes on, about the list of first members that it was given. `current` are
/// the members that it has stored, where it has any.
pub open spec fn seed_warning(raw: Seq<char>, current: Option<PeerRows>) -> Option<Seq<char>> {
    match bootstrap_peers(raw) {
        Err(e) => Some(
            "WARNING: --bootstrap-peers 解析失败（本节点 resume 不受影响）："@ + e,
        ),
        Ok(seed) => match current {
            Some(rows) => if member_diffs(seed, rows).len() > 0 {
                Some(
                    "WARNING: --bootstrap-peers 与集群当前成员表不一致："@ + joined(
                        member_diffs(seed, rows),
                        "；"@,
                    ),
                )
            } else {
                None
            },
            None => None,
        },
    }
}

fn warn_of_seed(raw: &str, current: Option<&Peers>) -> (r: Option<String>)
    ensures
        view_opt(r) == seed_warning(raw@, view_opt(current)),
{
    match parse_bootstrap_peers(raw) {
        Err(e) => {
            let mut m: String =
                "WARNING: --bootstrap-peers 解析失败（本节点 resume 不受影响）：".to_owned();
            m.append(e.as_str());
            Some(m)
        },
        Ok(seed) => match current {
            Some(rows) => match membership_diff(&seed, rows) {
                Some(d) => {
                    let mut m: String =
                        "WARNING: --bootstrap-peers 与集群当前成员表不一致：".to_owned();
                    m.append(d.as_str());
                    Some(m)
                },
                None => None,
            },
            None => None,
        },
    }
}

/// How a node of a cluster starts. Options that begin or join a cluster count only for a node that has
/// stored nothing yet, so that a node can always be started the same way.
pub open spec fn plan(
    bootstrap: bool,
    peers: Option<Seq<char>>,
    join: Option<Seq<char>>,
    has_state: bool,
    current: Option<PeerRows>,
    node_id: u64,
    raft_addr: Seq<char>,
    http_addr: Seq<char>,
) -> Result<StartPlanView, Seq<char>> {
    if has_state {
        Ok(
            StartPlanView::Resume {
                warning: match peers {
                    Some(raw) => seed_warning(raw, current),
                    None => None,
                },
            },
        )
    } else if bootstrap {
        Ok(StartPlanView::Single)
    } else {
        match (peers, join) {
            (Some(raw), _) => match bootstrap_peers(raw) {
                Err(e) => Err(e),
                Ok(rows) => match local_error(rows, node_id, raft_addr, http_addr) {
                    Some(e) => Err(e),
                    None => Ok(StartPlanView::Seed(rows)),
                },
            },
            (None, Some(url)) => Ok(StartPlanView::Join(url)),
            (None, None) => Err(
                "集群模式需要 --bootstrap、--bootstrap-peers、--join 或已有数据目录"@,
            ),
        }
    }
}

/// Decides how a node of a cluster starts.
pub fn start_plan(
    bootstrap: bool,
    peers: Option<&str>,
    join: Option<&str>,
    has_state: bool,
    current: Option<&Peers>,
    node_id: u64,
    raft_addr: &str,
    http_addr: &str,
) -> (r: Result<StartPlan, String>)
    ensures
        match r {
            Ok(p) => plan(
                bootstrap,
                view_opt(peers),
                view_opt(join),
                has_state,
                view_opt(current),
                node_id,
                raft_addr@,
                http_addr@,
            ) == Ok::<StartPlanView, Seq<char>>(p@),
            Err(m) => plan(
                bootstrap,
                view_opt(peers),
                view_opt(join),
                has_state,
                view_opt(current),
                node_id,
                raft_addr@,
                http_addr@,
            ) == Err::<StartPlanView, Seq<char>>(m@),
        },
{
    if has_state {
        let warning: Option<String> = match peers {
            Some(raw) => warn_of_seed(raw, current),
            None => None,
        };
        return Ok(StartPlan::Resume { warning });
    }
    if bootstrap {
        return Ok(StartPlan::Single);
    }
    match peers {
        Some(raw) => {
            let seed: Peers = match parse_bootstrap_peers(raw) {
                Ok(p) => p,
                Err(e) => {
                    return Err(e);
                },
            };
            match validate_bootstrap_peers(&seed, node_id, raft_addr, http_addr) {
                Ok(_) => Ok(StartPlan::Seed(seed)),
                Err(e) => Err(e),
            }
        },
        None => match join {
            Some(url) => Ok(StartPlan::Join(url.to_owned())),
            None => Err(
                "集群模式需要 --bootstrap、--bootstrap-peers、--join 或已有数据目录".to_owned(),
            ),
        },
    }
}

/// Whether a read is answered here. A read that must be up to date is sent to the leader.
pub open spec fn reads_here(mode: ReadMode, in_cluster: bool, is_leader: bool) -> bool {
    mode == ReadMode::Stale || !in_cluster || is_leader
}

/// Whether a read is answered here. A read that must be up to date is sent to the leader.
pub fn gate_read(mode: ReadMode, in_cluster: bool, is_leader: bool, leader: Option<String>) -> (r:
    Result<(), Error>)
    ensures
        (r is Ok) == reads_here(mode, in_cluster, is_leader),
        match r {
            Ok(_) => mode == ReadMode::Stale || !in_cluster || is_leader,
            Err(e) => mode == ReadMode::Linear && in_cluster && !is_leader && e@ == redirect(
                text_or(leader, Seq::empty()),
            ),
        },
{
    if mode == ReadMode::Stale || !in_cluster || is_leader {
        return Ok(());
    }
    let hint: String = match leader {
        Some(h) => h,
        None => String::new(),
    };
    assert(hint@ =~= text_or(leader, Seq::empty()));
    Err(
        Error::new(ErrorKind::LeaderRedirect, "not leader, follow leader_hint").with_leader_hint(hint),
    )
}

/// A node alone answers every read, and so does the leader. Any other node of a cluster answers those that may be
/// out of date, and none that may not.
pub proof fn law_reads_go_to_the_leader(mode: ReadMode)
    ensures
        reads_here(mode, false, false),
        reads_here(mode, true, true),
        reads_here(mode, true, false) <==> mode == ReadMode::Stale,
{
}

} // verus!
