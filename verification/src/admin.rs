//! The command line: the requests of the administration client, the values of its options, and how a
//! node asks to join a cluster.
use vstd::prelude::*;
use vstd::string::StringExecFns;

use crate::api::{url_of, with_scheme};
use crate::dup::view_opt;
use crate::model::{PublishPolicy, ReadMode, SharedCascadeMode};
use crate::outside::{json_literal, json_string};
use crate::text::{dec, decimal, same};

verus! {

/// The text of a part of the command line that does nothing yet.
pub fn placeholder() -> (r: &'static str)
    ensures
        r@ == "module not yet implemented"@,
{
    "module not yet implemented"
}

// ---------------------------------------------------------------------------------------------
// Options
// ---------------------------------------------------------------------------------------------

/// The values of the option for a publish that fails its checks.
#[derive(Debug, Clone, Copy, PartialEq, Eq, Structural)]
pub enum PolicyArg {
    Block,
    Warn,
}

/// The values of the option for publishing shared items.
#[derive(Debug, Clone, Copy, PartialEq, Eq, Structural)]
pub enum CascadeArg {
    Auto,
    Manual,
}

/// The values of the option for reads.
#[derive(Debug, Clone, Copy, PartialEq, Eq, Structural)]
pub enum ReadArg {
    Linear,
    Stale,
}

impl vstd::std_specs::convert::FromSpecImpl<PolicyArg> for PublishPolicy {
    open spec fn obeys_from_spec() -> bool {
        true
    }

    open spec fn from_spec(v: PolicyArg) -> PublishPolicy {
        match v {
            PolicyArg::Block => PublishPolicy::Block,
            PolicyArg::Warn => PublishPolicy::Warn,
        }
    }
}

impl From<PolicyArg> for PublishPolicy {
    fn from(v: PolicyArg) -> (r: Self) {
        match v {
            PolicyArg::Block => PublishPolicy::Block,
            PolicyArg::Warn => PublishPolicy::Warn,
        }
    }
}

impl vstd::std_specs::convert::FromSpecImpl<CascadeArg> for SharedCascadeMode {
    open spec fn obeys_from_spec() -> bool {
        true
    }

    open spec fn from_spec(v: CascadeArg) -> SharedCascadeMode {
        match v {
            CascadeArg::Auto => SharedCascadeMode::Auto,
            CascadeArg::Manual => SharedCascadeMode::Manual,
        }
    }
}

impl From<CascadeArg> for SharedCascadeMode {
    fn from(v: CascadeArg) -> (r: Self) {
        match v {
            CascadeArg::Auto => SharedCascadeMode::Auto,
            CascadeArg::Manual => SharedCascadeMode::Manual,
        }
    }
}

impl vstd::std_specs::convert::FromSpecImpl<ReadArg> for ReadMode {
    open spec fn obeys_from_spec() -> bool {
        true
    }

    open spec fn from_spec(v: ReadArg) -> ReadMode {
        match v {
            ReadArg::Linear => ReadMode::Linear,
            ReadArg::Stale => ReadMode::Stale,
        }
    }
}

impl From<ReadArg> for ReadMode {
    fn from(v: ReadArg) -> (r: Self) {
        match v {
            ReadArg::Linear => ReadMode::Linear,
            ReadArg::Stale => ReadMode::Stale,
        }
    }
}

/// The password of the administrator: the given one, or else one made of a fresh token.
pub open spec fn password_from(given: Option<Seq<char>>, token: Seq<char>) -> Seq<char> {
    match given {
        Some(p) => p,
        None => "dsh-admin-"@ + token,
    }
}

/// The password of the administrator, with whether it was made here.
pub fn resolve_admin_password(given: Option<&str>, token: &str) -> (r: (String, bool))
    ensures
        r.0@ == password_from(view_opt(given), token@),
        r.1 == given is None,
{
    match given {
        Some(p) => (p.to_owned(), false),
        None => {
            let mut s: String = "dsh-admin-".to_owned();
            s.append(token);
            (s, true)
        },
    }
}

// ---------------------------------------------------------------------------------------------
// The administration client
// ---------------------------------------------------------------------------------------------

/// A command of the administration client.
#[derive(Debug)]
pub enum AdminCmd {
    /// Prints a new master key.
    GenMasterKey,
    RotateMasterKey { new_key: String },
    /// Ends the session of the administrator.
    ForceLogout,
    SetPassword { password: String },
    /// Makes a learner a voter.
    Promote { node: u64 },
    RemoveNode { node: u64 },
    /// Fetches a copy of the state, into a file where one is named.
    Snapshot { out: Option<String> },
    RetentionStatus,
}

/// A request of the client. A body is JSON.
#[derive(Debug)]
pub struct AdminRequest {
    /// Whether it is sent as POST; GET otherwise.
    pub post: bool,
    pub url: String,
    pub body: Option<String>,
}

/// What an [`AdminRequest`] stands for.
pub struct AdminRequestView {
    pub post: bool,
    pub url: Seq<char>,
    pub body: Option<Seq<char>>,
}

impl View for AdminRequest {
    type V = AdminRequestView;

    open spec fn view(&self) -> AdminRequestView {
        AdminRequestView { post: self.post, url: self.url@, body: view_opt(self.body) }
    }
}

/// A text without the slashes at its end.
pub open spec fn without_slashes(s: Seq<char>) -> Seq<char>
    decreases s.len(),
{
    if s.len() > 0 && s.last() == '/' {
        without_slashes(s.drop_last())
    } else {
        s
    }
}

fn trim_slashes(s: &str) -> (r: &str)
    ensures
        r@ == without_slashes(s@),
{
    let mut n: usize = s.unicode_len();
    assert(s@.take(n as int) =~= s@);
    while n > 0 && s.get_char(n - 1) == '/'
        invariant
            n <= s@.len(),
            without_slashes(s@.take(n as int)) == without_slashes(s@),
        decreases n,
    {
        assert(s@.take(n as int).drop_last() =~= s@.take(n - 1));
        n = n - 1;
    }
    let r: &str = s.substring_char(0, n);
    assert(r@ =~= s@.take(n as int));
    r
}

/// A JSON object with one member.
pub open spec fn object(name: Seq<char>, value: Seq<char>) -> Seq<char> {
    "{\""@ + name + "\":"@ + value + "}"@
}

fn json_object(name: &str, value: &str) -> (r: String)
    ensures
        r@ == object(name@, value@),
{
    let mut s: String = "{\"".to_owned();
    s.append(name);
    s.append("\":");
    s.append(value);
    s.append("}");
    s
}

/// The request of a command to the service at `endpoint`; none for a command that needs no service.
pub open spec fn request_of(endpoint: Seq<char>, cmd: AdminCmd) -> Option<AdminRequestView> {
    let base = without_slashes(endpoint);
    match cmd {
        AdminCmd::GenMasterKey => None,
        AdminCmd::RotateMasterKey { new_key } => Some(
            AdminRequestView {
                post: true,
                url: endpoint + "/api/v1/admin/rotate-master-key"@,
                body: Some(object("new_key"@, json_literal(new_key@))),
            },
        ),
        AdminCmd::ForceLogout => Some(
            AdminRequestView {
                post: true,
                url: base + "/api/v1/admin/force-logout"@,
                body: None,
            },
        ),
        AdminCmd::SetPassword { password } => Some(
            AdminRequestView {
                post: true,
                url: base + "/api/v1/admin/set-password"@,
                body: Some(object("password"@, json_literal(password@))),
            },
        ),
        AdminCmd::Promote { node } => Some(
            AdminRequestView {
                post: true,
                url: base + "/api/v1/cluster/promote"@,
                body: Some(object("node_id"@, dec(node as nat))),
            },
        ),
        AdminCmd::RemoveNode { node } => Some(
            AdminRequestView {
                post: true,
                url: base + "/api/v1/cluster/remove"@,
                body: Some(object("node_id"@, dec(node as nat))),
            },
        ),
        AdminCmd::Snapshot { out } => Some(
            AdminRequestView { post: false, url: base + "/api/v1/admin/snapshot"@, body: None },
        ),
        AdminCmd::RetentionStatus => Some(
            AdminRequestView {
                post: false,
                url: base + "/api/v1/admin/retention-status"@,
                body: None,
            },
        ),
    }
}

fn request(post: bool, base: &str, path: &str, body: Option<String>) -> (r: AdminRequest)
    ensures
        r@ == (AdminRequestView { post, url: base@ + path@, body: view_opt(body) }),
{
    let mut url: String = base.to_owned();
    url.append(path);
    AdminRequest { post, url, body }
}

/// The request of a command to the service at `endpoint`; none for a command that needs no service.
pub fn admin_request(endpoint: &str, cmd: &AdminCmd) -> (r: Option<AdminRequest>)
    ensures
        view_opt(r) == request_of(endpoint@, *cmd),
{
    let base: &str = trim_slashes(endpoint);
    match cmd {
        AdminCmd::GenMasterKey => None,
        AdminCmd::RotateMasterKey { new_key } => {
            let body: String = json_object("new_key", json_string(new_key.as_str()).as_str());
            Some(request(true, endpoint, "/api/v1/admin/rotate-master-key", Some(body)))
        },
        AdminCmd::ForceLogout => Some(request(true, base, "/api/v1/admin/force-logout", None)),
        AdminCmd::SetPassword { password } => {
            let body: String = json_object("password", json_string(password.as_str()).as_str());
            Some(request(true, base, "/api/v1/admin/set-password", Some(body)))
        },
        AdminCmd::Promote { node } => {
            let body: String = json_object("node_id", decimal(*node).as_str());
            Some(request(true, base, "/api/v1/cluster/promote", Some(body)))
        },
        AdminCmd::RemoveNode { node } => {
            let body: String = json_object("node_id", decimal(*node).as_str());
            Some(request(true, base, "/api/v1/cluster/remove", Some(body)))
        },
        AdminCmd::Snapshot { .. } => Some(request(false, base, "/api/v1/admin/snapshot", None)),
        AdminCmd::RetentionStatus => Some(
            request(false, base, "/api/v1/admin/retention-status", None),
        ),
    }
}

/// How the client proves who it is.
#[derive(Debug)]
pub enum Credential {
    Token(String),
    /// It logs in first.
    Password(String),
}

/// The credential of the client: a token where there is one, because a second login may be refused, or
/// else the password.
pub fn credential(token: Option<String>, password: Option<String>) -> (r: Result<
    Credential,
    String,
>)
    ensures
        match (token, password) {
            (Some(t), _) => r == Ok::<Credential, String>(Credential::Token(t)),
            (None, Some(p)) => r == Ok::<Credential, String>(Credential::Password(p)),
            (None, None) => r matches Err(m) && m@ == "需要 --admin-token 或 --admin-password"@,
        },
{
    match token {
        Some(t) => Ok(Credential::Token(t)),
        None => match password {
            Some(p) => Ok(Credential::Password(p)),
            None => Err("需要 --admin-token 或 --admin-password".to_owned()),
        },
    }
}

/// Whether a status says that a request was served.
pub fn is_success(status: u16) -> (r: bool)
    ensures
        r == (200 <= status < 300),
{
    status >= 200 && status < 300
}

// ---------------------------------------------------------------------------------------------
// Joining, on the side of the node
// ---------------------------------------------------------------------------------------------

/// The body of the request to join.
pub open spec fn join_body_of(node_id: u64, http_addr: Seq<char>, raft_addr: Seq<char>) -> Seq<char> {
    "{\"node_id\":"@ + dec(node_id as nat) + ",\"http_addr\":"@ + json_literal(http_addr)
        + ",\"raft_addr\":"@ + json_literal(raft_addr) + "}"@
}

/// The body of the request to join.
pub fn join_body(node_id: u64, http_addr: &str, raft_addr: &str) -> (r: String)
    ensures
        r@ == join_body_of(node_id, http_addr@, raft_addr@),
{
    let mut s: String = "{\"node_id\":".to_owned();
    s.append(decimal(node_id).as_str());
    s.append(",\"http_addr\":");
    s.append(json_string(http_addr).as_str());
    s.append(",\"raft_addr\":");
    s.append(json_string(raft_addr).as_str());
    s.append("}");
    s
}

/// The answer to a request to join.
#[derive(Debug)]
pub enum JoinAnswer {
    /// No answer came.
    Silence,
    /// The status, with the address of the leader where the answer holds one.
    Status(u16, Option<String>),
}

/// How a join goes on.
#[derive(Debug)]
pub enum JoinStep {
    Joined,
    /// Wait a moment and ask the node with this URL.
    Ask(String),
    Failed(String),
}

/// The URL to ask next: that of the leader, where the answer names another node as such.
pub open spec fn next_target(url: Seq<char>, answer: JoinAnswer) -> Seq<char> {
    match answer {
        JoinAnswer::Status(428, Some(h)) => if h@.len() > 0 && h@ != url {
            url_of(h@)
        } else {
            url
        },
        _ => url,
    }
}

/// Whether an answer ends the join. A node that is a member already needs no join.
pub open spec fn is_joined(answer: JoinAnswer) -> bool {
    answer matches JoinAnswer::Status(s, _) && (200 <= s < 300 || s == 409)
}

/// Decides how a join goes on after an answer of the node with the URL; `late` says whether the time is
/// over.
pub fn after_join(url: String, answer: JoinAnswer, late: bool) -> (r: JoinStep)
    ensures
        if is_joined(answer) {
            r is Joined
        } else if late {
            r matches JoinStep::Failed(m) && m@ == "join timed out (no leader responded)"@
        } else {
            r matches JoinStep::Ask(u) && u@ == next_target(url@, answer)
        },
{
    let next: String = match answer {
        JoinAnswer::Status(status, hint) => {
            if is_success(status) || status == 409 {
                return JoinStep::Joined;
            }
            match hint {
                Some(h) => {
                    let other: bool = h.as_str().unicode_len() > 0 && !same(h.as_str(), url.as_str());
                    if status == 428 && other {
                        with_scheme(h.as_str())
                    } else {
                        url
                    }
                },
                None => url,
            }
        },
        JoinAnswer::Silence => url,
    };
    if late {
        JoinStep::Failed("join timed out (no leader responded)".to_owned())
    } else {
        JoinStep::Ask(next)
    }
}

} // verus!
