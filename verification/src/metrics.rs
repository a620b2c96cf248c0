//! What operators see: metrics, readiness, members and entries for the audit trail.
use vstd::prelude::*;
use vstd::string::StringExecFns;

use crate::cluster::{NodeInfoView, Peers};
use crate::command::{Command, CommandView};
use crate::dup::{view_opt, views};
use crate::error::Error;
use crate::keys::{K_SHARED, K_SHARED_DRAFT, k_branch_state};
use crate::model::{AuditEntry, AuditEntryView, BranchState, Project, ProjectId, ProjectView};
use crate::state::StateMachine;
use crate::step::{audit, branches, projects, read, shared_under};
use crate::store::{State, Store};
use crate::text::{dec, decimal};
use crate::transition::operator_of;

verus! {

/// Counts of HTTP requests on this node.
#[derive(Debug, Clone, Copy, PartialEq, Eq, Structural)]
pub struct HttpCounters {
    pub requests: u64,
    pub errors: u64,
}

impl HttpCounters {
    pub fn new() -> (r: Self)
        ensures
            r.requests == 0 && r.errors == 0,
    {
        HttpCounters { requests: 0, errors: 0 }
    }

    /// Counts a response; those with a status from 500 are errors. The counts wrap around.
    pub fn record(&mut self, status: u16)
        ensures
            final(self).requests == old(self).requests.wrapping_add(1),
            final(self).errors == if 500 <= status < 600 {
                old(self).errors.wrapping_add(1)
            } else {
                old(self).errors
            },
    {
        self.requests = self.requests.wrapping_add(1);
        if status >= 500 && status < 600 {
            self.errors = self.errors.wrapping_add(1);
        }
    }
}

/// The counts: requests, and those that failed.
pub fn http_counters(c: &HttpCounters) -> (r: (u64, u64))
    ensures
        r == (c.requests, c.errors),
{
    (c.requests, c.errors)
}

/// Sets the counts to zero.
pub fn reset_http_counters(c: &mut HttpCounters)
    ensures
        final(c).requests == 0,
        final(c).errors == 0,
{
    c.requests = 0;
    c.errors = 0;
}

/// The part that a node plays in the cluster.
#[derive(Debug, Clone, Copy, PartialEq, Eq, Structural)]
pub enum Role {
    Learner,
    Follower,
    Leader,
    Candidate,
}

/// The number of a role.
pub open spec fn role_number(role: Role) -> u64 {
    match role {
        Role::Learner => 0,
        Role::Follower => 1,
        Role::Leader => 2,
        Role::Candidate => 3,
    }
}

/// What the replication layer reports.
#[derive(Debug, Clone, Copy, PartialEq, Eq, Structural)]
pub struct RaftStatus {
    pub role: Role,
    pub term: u64,
    pub last_log_index: Option<u64>,
}

/// The lines of a metric.
pub open spec fn metric(
    name: Seq<char>,
    help: Seq<char>,
    kind: Seq<char>,
    value: u64,
) -> Seq<char> {
    "# HELP "@ + name + " "@ + help + "\n# TYPE "@ + name + " "@ + kind + "\n"@ + name + " "@ + dec(
        value as nat,
    ) + "\n"@
}

fn write_metric(out: &mut String, name: &str, help: &str, kind: &str, value: u64)
    ensures
        final(out)@ == old(out)@ + metric(name@, help@, kind@, value),
{
    let mut m: String = "# HELP ".to_owned();
    m.append(name);
    m.append(" ");
    m.append(help);
    m.append("\n# TYPE ");
    m.append(name);
    m.append(" ");
    m.append(kind);
    m.append("\n");
    m.append(name);
    m.append(" ");
    m.append(decimal(value).as_str());
    m.append("\n");
    out.append(m.as_str());
}

/// Sums that stop at the greatest number.
pub open spec fn capped_sum(a: u64, b: u64) -> u64 {
    if a + b > u64::MAX {
        u64::MAX
    } else {
        (a + b) as u64
    }
}

fn sum(a: u64, b: u64) -> (r: u64)
    ensures
        r == capped_sum(a, b),
{
    if a > u64::MAX - b {
        u64::MAX
    } else {
        a + b
    }
}

/// The counts of branches, of their active versions and of their gradual releases.
#[derive(Debug, Clone, Copy, PartialEq, Eq, Structural)]
pub struct Totals {
    pub branches: u64,
    pub versions: u64,
    pub gray: u64,
}

pub open spec fn no_totals() -> Totals {
    Totals { branches: 0, versions: 0, gray: 0 }
}

/// The totals with one more branch.
pub open spec fn with_branch(t: Totals, s: State, id: Seq<char>, branch: Seq<char>) -> Totals {
    match read::<BranchState>(s, k_branch_state(id, branch)) {
        Ok(Some(st)) => Totals {
            branches: capped_sum(t.branches, 1),
            versions: capped_sum(t.versions, st.active_version),
            gray: if st.gray_seq > 0 {
                capped_sum(t.gray, 1)
            } else {
                t.gray
            },
        },
        _ => Totals { branches: capped_sum(t.branches, 1), ..t },
    }
}

/// The totals with the first `n` branches of the list.
pub open spec fn with_branches(
    t: Totals,
    s: State,
    id: Seq<char>,
    list: Seq<Seq<char>>,
    n: nat,
) -> Totals
    decreases n,
{
    if n == 0 {
        t
    } else {
        with_branch(with_branches(t, s, id, list, (n - 1) as nat), s, id, list[n - 1])
    }
}

/// The totals of the first `n` projects of the list.
pub open spec fn totals(s: State, list: Seq<ProjectView>, n: nat) -> Totals
    decreases n,
{
    if n == 0 {
        no_totals()
    } else {
        let names = branches(s, list[n - 1].id);
        with_branches(totals(s, list, (n - 1) as nat), s, list[n - 1].id, names, names.len())
    }
}

fn count_branches<S: Store>(sm: &StateMachine<S>, list: &Vec<Project>) -> (r: Totals)
    ensures
        sm.reliable() ==> r == totals(sm@, views(list@), list@.len()),
        list@.len() == 0 ==> r == no_totals(),
{
    let ghost all = views(list@);
    let mut t: Totals = Totals { branches: 0, versions: 0, gray: 0 };
    let mut i: usize = 0;
    while i < list.len()
        invariant
            i <= list@.len(),
            all == views(list@),
            sm.reliable() ==> t == totals(sm@, all, i as nat),
            i == 0 ==> t == no_totals(),
        decreases list@.len() - i,
    {
        let id: &ProjectId = &list[i].id;
        assert(all[i as int].id == id@);
        let ghost before = t;
        match sm.list_branches(id) {
            Ok(names) => {
                let ghost seen = views(names@);
                let mut j: usize = 0;
                while j < names.len()
                    invariant
                        j <= names@.len(),
                        seen == views(names@),
                        sm.reliable() ==> t == with_branches(before, sm@, id@, seen, j as nat),
                    decreases names@.len() - j,
                {
                    assert(seen[j as int] == names@[j as int]@);
                    t.branches = sum(t.branches, 1);
                    match sm.get_branch_state(id, &names[j]) {
                        Ok(Some(st)) => {
                            t.versions = sum(t.versions, st.active_version);
                            if st.gray_seq > 0 {
                                t.gray = sum(t.gray, 1);
                            }
                        },
                        _ => {},
                    }
                    j = j + 1;
                }
            },
            Err(_) => {},
        }
        i = i + 1;
    }
    t
}

/// The number of the newest audit entry; 0 where there is none.
pub open spec fn newest_audit(s: State) -> u64 {
    let newest = audit(s, None, None, None, 1);
    if newest.len() > 0 {
        newest[0].seq
    } else {
        0
    }
}

/// The number of audit entries with the action.
pub open spec fn audited(s: State, action: Seq<char>) -> u64 {
    audit(s, Some(action), None, None, 1_000_000).len() as u64
}

/// The metrics of the replication layer.
pub open spec fn raft_metrics(raft: Option<RaftStatus>) -> Seq<char> {
    match raft {
        Some(m) => metric(
            "dsh_raft_role"@,
            "节点角色（0=learner 1=follower 2=leader 3=candidate）"@,
            "gauge"@,
            role_number(m.role),
        ) + metric("dsh_raft_term"@, "当前任期"@, "gauge"@, m.term) + metric(
            "dsh_raft_committed_index"@,
            "已提交日志索引"@,
            "gauge"@,
            match m.last_log_index {
                Some(i) => i,
                None => 0,
            },
        ),
        None => metric("dsh_raft_role"@, "节点角色（0=dev-single）"@, "gauge"@, 0),
    }
}

/// The counts that the metrics of a node show.
#[derive(Debug, Clone, Copy, PartialEq, Eq, Structural)]
pub struct Counts {
    pub projects: u64,
    pub totals: Totals,
    pub shared: u64,
    pub shared_drafts: u64,
    pub audit: u64,
    pub gray_publish: u64,
    pub gray_promote: u64,
    pub gray_abort: u64,
}

/// The counts of a state.
pub open spec fn counts_of(s: State) -> Counts {
    Counts {
        projects: projects(s).len() as u64,
        totals: totals(s, projects(s), projects(s).len()),
        shared: shared_under(s, K_SHARED@).len() as u64,
        shared_drafts: shared_under(s, K_SHARED_DRAFT@).len() as u64,
        audit: newest_audit(s),
        gray_publish: audited(s, "gray_publish"@),
        gray_promote: audited(s, "gray_promote"@),
        gray_abort: audited(s, "gray_abort"@),
    }
}

/// The count, or 0 where it could not be read.
pub open spec fn read_or_zero(got: u64, want: u64) -> bool {
    got == want || got == 0
}

/// The counts as far as they could be read: one that could not is 0.
pub open spec fn counts_read(c: Counts, s: State) -> bool {
    let want = counts_of(s);
    &&& read_or_zero(c.projects, want.projects)
    &&& c.projects == 0 ==> c.totals == no_totals()
    &&& read_or_zero(c.shared, want.shared)
    &&& read_or_zero(c.shared_drafts, want.shared_drafts)
    &&& read_or_zero(c.audit, want.audit)
    &&& read_or_zero(c.gray_publish, want.gray_publish)
    &&& read_or_zero(c.gray_promote, want.gray_promote)
    &&& read_or_zero(c.gray_abort, want.gray_abort)
}

/// The metrics of a node, in the text format of Prometheus.
pub open spec fn metrics(
    c: Counts,
    raft: Option<RaftStatus>,
    master_key_ok: bool,
    http: HttpCounters,
) -> Seq<char> {
    metric("dsh_projects"@, "项目数"@, "gauge"@, c.projects) + metric(
        "dsh_branches"@,
        "分支总数"@,
        "gauge"@,
        c.totals.branches,
    ) + metric("dsh_versions"@, "分支活动版本总和"@, "gauge"@, c.totals.versions) + metric(
        "dsh_shared_items"@,
        "已发布共享项数"@,
        "gauge"@,
        c.shared,
    ) + metric(
        "dsh_shared_drafts"@,
        "共享草稿数"@,
        "gauge"@,
        c.shared_drafts,
    ) + metric("dsh_audit_entries"@, "审计条目数"@, "gauge"@, c.audit) + metric(
        "dsh_gray_active"@,
        "活跃灰度分支数（gray_seq>0）"@,
        "gauge"@,
        c.totals.gray,
    ) + metric(
        "dsh_gray_publish_total"@,
        "灰度gray_publish累计（审计窗口内）"@,
        "counter"@,
        c.gray_publish,
    ) + metric(
        "dsh_gray_promote_total"@,
        "灰度gray_promote累计（审计窗口内）"@,
        "counter"@,
        c.gray_promote,
    ) + metric(
        "dsh_gray_abort_total"@,
        "灰度gray_abort累计（审计窗口内）"@,
        "counter"@,
        c.gray_abort,
    ) + metric(
        "dsh_http_requests_total"@,
        "HTTP 请求总数（进程内）"@,
        "counter"@,
        http.requests,
    ) + metric("dsh_http_5xx_total"@, "HTTP 5xx 响应数（进程内）"@, "counter"@, http.errors)
        + metric(
        "dsh_master_key_ok"@,
        "主密钥是否就绪（0/1）"@,
        "gauge"@,
        if master_key_ok {
            1
        } else {
            0
        },
    ) + raft_metrics(raft)
}

fn count_of<T>(r: Result<Vec<T>, Error>) -> (n: u64)
    ensures
        n == match r {
            Ok(v) => v@.len() as u64,
            Err(_) => 0,
        },
{
    match r {
        Ok(v) => v.len() as u64,
        Err(_) => 0,
    }
}

/// Reads the counts of a state; one that cannot be read is 0.
fn read_counts<S: Store>(sm: &StateMachine<S>) -> (r: Counts)
    ensures
        counts_read(r, sm@),
        sm.reliable() ==> r == counts_of(sm@),
{
    let list: Vec<Project> = match sm.list_projects() {
        Ok(v) => v,
        Err(_) => Vec::new(),
    };
    let t: Totals = count_branches(sm, &list);
    let newest: u64 = match sm.get_audit(None, None, None, 1) {
        Ok(v) => {
            assert(v@.len() > 0 ==> views(v@)[0] == v@[0]@);
            if v.len() > 0 {
                v[0].seq
            } else {
                0
            }
        },
        Err(_) => 0,
    };
    Counts {
        projects: list.len() as u64,
        totals: t,
        shared: count_of(sm.list_shared_published()),
        shared_drafts: count_of(sm.list_shared_drafts()),
        audit: newest,
        gray_publish: count_of(sm.get_audit(Some("gray_publish"), None, None, 1_000_000)),
        gray_promote: count_of(sm.get_audit(Some("gray_promote"), None, None, 1_000_000)),
        gray_abort: count_of(sm.get_audit(Some("gray_abort"), None, None, 1_000_000)),
    }
}

/// The metrics for counts that have been read.
pub fn metrics_page(c: &Counts, raft: Option<RaftStatus>, master_key_ok: bool, http: &HttpCounters) -> (r:
    String)
    ensures
        r@ == metrics(*c, raft, master_key_ok, *http),
{
    let mut out: String = String::new();
    write_metric(&mut out, "dsh_projects", "项目数", "gauge", c.projects);
    assert(out@ =~= metric("dsh_projects"@, "项目数"@, "gauge"@, c.projects));
    write_metric(&mut out, "dsh_branches", "分支总数", "gauge", c.totals.branches);
    write_metric(&mut out, "dsh_versions", "分支活动版本总和", "gauge", c.totals.versions);
    write_metric(&mut out, "dsh_shared_items", "已发布共享项数", "gauge", c.shared);
    write_metric(&mut out, "dsh_shared_drafts", "共享草稿数", "gauge", c.shared_drafts);
    write_metric(&mut out, "dsh_audit_entries", "审计条目数", "gauge", c.audit);
    write_metric(
        &mut out,
        "dsh_gray_active",
        "活跃灰度分支数（gray_seq>0）",
        "gauge",
        c.totals.gray,
    );
    write_metric(
        &mut out,
        "dsh_gray_publish_total",
        "灰度gray_publish累计（审计窗口内）",
        "counter",
        c.gray_publish,
    );
    write_metric(
        &mut out,
        "dsh_gray_promote_total",
        "灰度gray_promote累计（审计窗口内）",
        "counter",
        c.gray_promote,
    );
    write_metric(
        &mut out,
        "dsh_gray_abort_total",
        "灰度gray_abort累计（审计窗口内）",
        "counter",
        c.gray_abort,
    );
    write_metric(
        &mut out,
        "dsh_http_requests_total",
        "HTTP 请求总数（进程内）",
        "counter",
        http.requests,
    );
    write_metric(
        &mut out,
        "dsh_http_5xx_total",
        "HTTP 5xx 响应数（进程内）",
        "counter",
        http.errors,
    );
    let key: u64 = if master_key_ok {
        1
    } else {
        0
    };
    write_metric(&mut out, "dsh_master_key_ok", "主密钥是否就绪（0/1）", "gauge", key);
    let raft_part: String = raft_text(raft);
    out.append(raft_part.as_str());
    out
}

/// The metrics of a node, in the text format of Prometheus. A count that cannot be read is shown as 0.
pub fn metrics_text<S: Store>(
    sm: &StateMachine<S>,
    raft: Option<RaftStatus>,
    master_key_ok: bool,
    http: &HttpCounters,
) -> (r: String)
    ensures
        exists|c: Counts|
            counts_read(c, sm@) && r@ == #[trigger] metrics(c, raft, master_key_ok, *http),
        sm.reliable() ==> r@ == metrics(counts_of(sm@), raft, master_key_ok, *http),
{
    let c: Counts = read_counts(sm);
    let r: String = metrics_page(&c, raft, master_key_ok, http);
    assert(counts_read(c, sm@) && r@ == metrics(c, raft, master_key_ok, *http));
    r
}

fn raft_text(raft: Option<RaftStatus>) -> (r: String)
    ensures
        r@ == raft_metrics(raft),
{
    let mut out: String = String::new();
    match raft {
        Some(m) => {
            let role: u64 = match m.role {
                Role::Learner => 0,
                Role::Follower => 1,
                Role::Leader => 2,
                Role::Candidate => 3,
            };
            let committed: u64 = match m.last_log_index {
                Some(i) => i,
                None => 0,
            };
            write_metric(
                &mut out,
                "dsh_raft_role",
                "节点角色（0=learner 1=follower 2=leader 3=candidate）",
                "gauge",
                role,
            );
            assert(out@ =~= metric(
                "dsh_raft_role"@,
                "节点角色（0=learner 1=follower 2=leader 3=candidate）"@,
                "gauge"@,
                role,
            ));
            write_metric(&mut out, "dsh_raft_term", "当前任期", "gauge", m.term);
            write_metric(
                &mut out,
                "dsh_raft_committed_index",
                "已提交日志索引",
                "gauge",
                committed,
            );
        },
        None => {
            write_metric(&mut out, "dsh_raft_role", "节点角色（0=dev-single）", "gauge", 0);
            assert(out@ =~= metric("dsh_raft_role"@, "节点角色（0=dev-single）"@, "gauge"@, 0));
        },
    }
    out
}

/// Whether a node can serve: alone always, and in a cluster once its log has begun.
pub fn is_ready(raft: Option<RaftStatus>) -> (r: bool)
    ensures
        r == (raft matches Some(m) ==> m.last_log_index is Some),
{
    match raft {
        Some(m) => m.last_log_index.is_some(),
        None => true,
    }
}

/// What is shown of a member of the cluster.
#[derive(Debug)]
pub struct Member {
    pub node_id: String,
    pub grpc_addr: String,
    pub http_addr: String,
    pub is_leader: bool,
    pub is_voter: bool,
}

/// What is shown of the member `row`.
pub open spec fn member_of(
    m: Member,
    row: (u64, NodeInfoView),
    leader: Option<u64>,
    voters: Seq<u64>,
) -> bool {
    &&& m.node_id@ == dec(row.0 as nat)
    &&& m.grpc_addr@ == row.1.grpc_addr
    &&& m.http_addr@ == row.1.http_addr
    &&& m.is_leader == (leader == Some(row.0))
    &&& m.is_voter == voters.contains(row.0)
}

pub fn is_in(list: &Vec<u64>, x: u64) -> (r: bool)
    ensures
        r == list@.contains(x),
{
    let mut i: usize = 0;
    while i < list.len()
        invariant
            i <= list@.len(),
            forall|j: int| 0 <= j < i ==> list@[j] != x,
        decreases list@.len() - i,
    {
        if list[i] == x {
            return true;
        }
        i = i + 1;
    }
    false
}

/// What is shown of the members of the cluster, by id.
pub fn cluster_members(nodes: &Peers, leader: Option<u64>, voters: &Vec<u64>) -> (r: Vec<Member>)
    ensures
        r@.len() == nodes@.len(),
        forall|i: int|
            0 <= i < r@.len() ==> member_of(#[trigger] r@[i], nodes@[i], leader, voters@),
{
    let n: usize = nodes.len();
    let mut out: Vec<Member> = Vec::new();
    let mut i: usize = 0;
    while i < n
        invariant
            i <= n == nodes@.len(),
            i == out@.len(),
            forall|j: int|
                0 <= j < i ==> member_of(#[trigger] out@[j], nodes@[j], leader, voters@),
        decreases n - i,
    {
        let (id, node) = nodes.at(i);
        let is_leader: bool = match leader {
            Some(l) => l == id,
            None => false,
        };
        out.push(
            Member {
                node_id: decimal(id),
                grpc_addr: node.grpc_addr.clone(),
                http_addr: node.http_addr.clone(),
                is_leader,
                is_voter: is_in(voters, id),
            },
        );
        i = i + 1;
    }
    out
}

/// The voters after a node is promoted: it joins them, where it is not one of them.
pub fn promoted_voters(voters: Vec<u64>, node_id: u64) -> (r: Vec<u64>)
    ensures
        r@ == if voters@.contains(node_id) {
            voters@
        } else {
            voters@.push(node_id)
        },
{
    let there: bool = is_in(&voters, node_id);
    let mut r: Vec<u64> = voters;
    if !there {
        r.push(node_id);
    }
    r
}

/// The command that appends to the audit trail; an empty operator stands for the administrator.
pub fn audit_command(
    action: &str,
    project: Option<String>,
    branch: Option<String>,
    version: Option<u64>,
    request_id: Option<String>,
    detail: String,
    operator: &str,
    ts: i64,
) -> (r: Command)
    ensures
        r@ == (CommandView::AuditAppend {
            entry: AuditEntryView {
                seq: 0,
                ts,
                operator: operator_of(operator@),
                action: action@,
                project: view_opt(project),
                branch: view_opt(branch),
                version,
                request_id: view_opt(request_id),
                detail: detail@,
            },
        }),
{
    let who: String = if operator.is_empty() {
        "admin".to_owned()
    } else {
        operator.to_owned()
    };
    Command::AuditAppend {
        entry: AuditEntry {
            seq: 0,
            ts,
            operator: who,
            action: action.to_owned(),
            project,
            branch,
            version,
            request_id,
            detail,
        },
    }
}

} // verus!
