//! The decisions of the HTTP interface: which requests are let in, what an error is answered, and how a
//! login or a join goes on.
use vstd::prelude::*;
use vstd::string::StringExecFns;

use crate::cluster::{NodeInfo, NodeInfoView, Peers, peer};
use crate::command::{Command, CommandView};
use crate::dup::{pair_views, view_opt, views};
use crate::error::{
    Detail, DetailView, Error, ErrorKind, ErrorView, code_of, conflict_err, validation_err,
};
use crate::gather::gather;
use crate::keys::K_SESSION;
use crate::metrics::is_in;
use crate::model::{AdminSession, AdminSessionView};
use crate::state::StateMachine;
use crate::step::{admin_sessions, read};
use crate::store::{State, Store};
use crate::text::{
    after_prefix, dec, decimal, has_prefix, lemma_split_once, number_of, parse_number, same, split,
    split_on, split_once,
};
use crate::token::{hashed, token_hash};
use crate::write::redirect;

verus! {

// ---------------------------------------------------------------------------------------------
// Errors
// ---------------------------------------------------------------------------------------------

/// What goes with an error in an answer.
#[derive(Debug)]
pub enum BodyDetail {
    /// A list of messages under a name.
    Listed(Detail),
    /// The address of the leader.
    LeaderHint(String),
    /// A JSON text from another node.
    Relayed(String),
}

/// What a [`BodyDetail`] stands for.
pub enum BodyDetailView {
    Listed(DetailView),
    LeaderHint(Seq<char>),
    Relayed(Seq<char>),
}

impl View for BodyDetail {
    type V = BodyDetailView;

    open spec fn view(&self) -> BodyDetailView {
        match *self {
            BodyDetail::Listed(d) => BodyDetailView::Listed(d@),
            BodyDetail::LeaderHint(h) => BodyDetailView::LeaderHint(h@),
            BodyDetail::Relayed(j) => BodyDetailView::Relayed(j@),
        }
    }
}

/// The body of an answer that is an error.
#[derive(Debug)]
pub struct ApiErrorBody {
    pub code: String,
    pub message: String,
    pub detail: Option<BodyDetail>,
}

/// What an [`ApiErrorBody`] stands for.
pub struct ApiErrorBodyView {
    pub code: Seq<char>,
    pub message: Seq<char>,
    pub detail: Option<BodyDetailView>,
}

impl View for ApiErrorBody {
    type V = ApiErrorBodyView;

    open spec fn view(&self) -> ApiErrorBodyView {
        ApiErrorBodyView {
            code: self.code@,
            message: self.message@,
            detail: view_opt(self.detail),
        }
    }
}

/// An answer with nothing but a code and a message.
fn body(code: &str, message: &str) -> (r: ApiErrorBody)
    ensures
        r@ == plain_body(code@, message@),
{
    ApiErrorBody { code: code.to_owned(), message: message.to_owned(), detail: None }
}

pub open spec fn plain_body(code: Seq<char>, message: Seq<char>) -> ApiErrorBodyView {
    ApiErrorBodyView { code, message, detail: None }
}

/// The HTTP status of a kind of error.
pub open spec fn status_of(kind: ErrorKind) -> u16 {
    match kind {
        ErrorKind::NotFound => 404,
        ErrorKind::Conflict | ErrorKind::NoDraft | ErrorKind::SessionInUse => 409,
        ErrorKind::SessionExpired => 401,
        ErrorKind::Forbidden => 403,
        ErrorKind::Validation | ErrorKind::PublishBlocked | ErrorKind::CycleRef => 422,
        ErrorKind::LimitExceeded => 429,
        ErrorKind::LeaderRedirect => 409,
        _ => 500,
    }
}

/// The body that an error is answered with.
pub open spec fn body_of(e: ErrorView) -> ApiErrorBodyView {
    ApiErrorBodyView {
        code: code_of(e.kind),
        message: e.message,
        detail: match (e.detail, e.leader_hint) {
            (Some(d), _) => Some(BodyDetailView::Listed(d)),
            (None, Some(h)) => Some(BodyDetailView::LeaderHint(h)),
            (None, None) => None,
        },
    }
}

/// An error on its way to a client.
#[derive(Debug)]
pub struct ApiError(pub Error);

impl ApiError {
    /// The status and the body of the answer.
    pub fn response(self) -> (r: (u16, ApiErrorBody))
        ensures
            r.0 == status_of(self.0@.kind),
            r.1@ == body_of(self.0@),
    {
        let e: Error = self.0;
        let status: u16 = match e.kind {
            ErrorKind::NotFound => 404,
            ErrorKind::Conflict => 409,
            ErrorKind::NoDraft => 409,
            ErrorKind::SessionInUse => 409,
            ErrorKind::SessionExpired => 401,
            ErrorKind::Forbidden => 403,
            ErrorKind::Validation => 422,
            ErrorKind::PublishBlocked => 422,
            ErrorKind::CycleRef => 422,
            ErrorKind::LimitExceeded => 429,
            ErrorKind::LeaderRedirect => 409,
            _ => 500,
        };
        let detail: Option<BodyDetail> = match e.detail {
            Some(d) => Some(BodyDetail::Listed(d)),
            None => match e.leader_hint {
                Some(h) => Some(BodyDetail::LeaderHint(h)),
                None => None,
            },
        };
        (status, ApiErrorBody { code: e.kind.code().to_owned(), message: e.message, detail })
    }
}

// ---------------------------------------------------------------------------------------------
// Who is let in
// ---------------------------------------------------------------------------------------------

/// The paths that need no session: logging in, the probes, and the call by which a node joins.
pub open spec fn is_open_path(path: Seq<char>) -> bool {
    path == "/api/v1/login"@ || path == "/healthz"@ || path == "/readyz"@ || path
        == "/api/v1/cluster/join"@
}

/// The paths that need the session of the administrator.
pub open spec fn needs_session(path: Seq<char>) -> bool {
    !is_open_path(path) && "/api/v1/"@.is_prefix_of(path)
}

/// Whether a request for the path needs the session of the administrator.
pub fn guarded(path: &str) -> (r: bool)
    ensures
        r == needs_session(path@),
{
    let open: bool = same(path, "/api/v1/login") || same(path, "/healthz") || same(path, "/readyz")
        || same(path, "/api/v1/cluster/join");
    !open && has_prefix(path, "/api/v1/")
}

/// The token of an `Authorization` header.
pub open spec fn bearer(header: Option<Seq<char>>) -> Option<Seq<char>> {
    match header {
        Some(h) => if "Bearer "@.is_prefix_of(h) {
            Some(h.skip("Bearer "@.len() as int))
        } else {
            None
        },
        None => None,
    }
}

/// The token of an `Authorization` header.
pub fn bearer_token(header: Option<&str>) -> (r: Option<&str>)
    ensures
        view_opt(r) == bearer(view_opt(header)),
{
    match header {
        Some(h) => after_prefix(h, "Bearer "),
        None => None,
    }
}

/// Whether a session is that of the token and has not ended.
pub open spec fn session_holds(s: AdminSessionView, token: Seq<char>, now: i64) -> bool {
    s.token_hash == hashed(token) && (s.expires_at matches Some(e) ==> now < e)
}

/// Whether a session is that of the token and has not ended.
pub fn session_valid(s: &AdminSession, token: &str, now: i64) -> (r: bool)
    ensures
        r == session_holds(s@, token@, now),
{
    let live: bool = match s.expires_at {
        Some(e) => now < e,
        None => true,
    };
    let hash: String = token_hash(token);
    same(s.token_hash.as_str(), hash.as_str()) && live
}

/// Whether the token is that of a session of the administrator that has not ended.
pub open spec fn logged_in(s: State, token: Seq<char>, now: i64) -> bool {
    ||| read::<AdminSession>(s, K_SESSION@) matches Ok(Some(x)) && session_holds(x, token, now)
    ||| exists|i: int|
        0 <= i < admin_sessions(s).len() && session_holds(#[trigger] admin_sessions(s)[i], token, now)
}

fn find_session<S: Store>(sm: &StateMachine<S>, token: &str, now: i64) -> (r: bool)
    ensures
        sm.reliable() ==> r == logged_in(sm@, token@, now),
        r ==> logged_in(sm@, token@, now),
{
    match sm.get_session() {
        Ok(Some(s)) => {
            if session_valid(&s, token, now) {
                return true;
            }
        },
        _ => {},
    }
    match sm.list_admin_sessions() {
        Ok(list) => {
            let ghost all = admin_sessions(sm@);
            assert(views(list@) == all);
            let mut i: usize = 0;
            while i < list.len()
                invariant
                    i <= list@.len(),
                    views(list@) == all,
                    all == admin_sessions(sm@),
                    forall|j: int| 0 <= j < i ==> !session_holds(#[trigger] all[j], token@, now),
                decreases list@.len() - i,
            {
                assert(all[i as int] == list@[i as int]@);
                if session_valid(&list[i], token, now) {
                    return true;
                }
                i = i + 1;
            }
        },
        Err(_) => {},
    }
    false
}

/// The answer to a request without a session.
pub open spec fn no_session() -> ApiErrorBodyView {
    plain_body("ERR_SESSION_EXPIRED"@, "需要管理员会话"@)
}

/// Whether a token is the one that is asked for; where none is asked for, anything is let in.
pub open spec fn token_fits(expected: Option<Seq<char>>, given: Option<Seq<char>>) -> bool {
    expected matches Some(t) ==> given == Some(t)
}

/// Whether a call that a shared token guards is let in. The token stands in the `Authorization` header.
pub fn token_admits(expected: Option<&str>, authorization: Option<&str>) -> (r: bool)
    ensures
        r == token_fits(view_opt(expected), bearer(view_opt(authorization))),
{
    match expected {
        Some(t) => match bearer_token(authorization) {
            Some(g) => same(g, t),
            None => false,
        },
        None => true,
    }
}

/// Whether a read of a configuration is let in. The token stands in the `Authorization` header or in the
/// query; where no token is set, no read is let in.
pub open spec fn reads(
    expected: Option<Seq<char>>,
    authorization: Option<Seq<char>>,
    query: Option<Seq<char>>,
) -> bool {
    expected is Some && (bearer(authorization) == expected || query == expected)
}

/// Whether a read of a configuration is let in. The token stands in the `Authorization` header or in the
/// query; where no token is set, no read is let in.
pub fn read_admits(expected: Option<&str>, authorization: Option<&str>, query: Option<&str>) -> (r:
    bool)
    ensures
        r == reads(view_opt(expected), view_opt(authorization), view_opt(query)),
        expected is None ==> !r,
{
    match expected {
        Some(t) => {
            let in_query: bool = match query {
                Some(g) => same(g, t),
                None => false,
            };
            in_query || token_admits(expected, authorization)
        },
        None => false,
    }
}

/// What the paths begin with under which applications read.
pub const DATA_PLANE: &'static str = "/v1/";

/// The answer to a read without a token.
pub open spec fn no_token() -> ApiErrorBodyView {
    plain_body("ERR_FORBIDDEN"@, "access token required"@)
}

/// Lets a request in, or gives the status and the body of the refusal. Administration needs a session,
/// and reading needs the access token, which stands in `authorization`, the header of that name, or in
/// `query`, the parameter `token`.
pub fn authorize<S: Store>(
    sm: &StateMachine<S>,
    path: &str,
    authorization: Option<&str>,
    query: Option<&str>,
    access_token: Option<&str>,
    now: i64,
) -> (r: Result<(), (u16, ApiErrorBody)>)
    ensures
        DATA_PLANE@.is_prefix_of(path@) ==> (r is Ok) == reads(
            view_opt(access_token),
            view_opt(authorization),
            view_opt(query),
        ),
        !DATA_PLANE@.is_prefix_of(path@) && !needs_session(path@) ==> r is Ok,
        needs_session(path@) && r is Ok ==> (bearer(view_opt(authorization)) matches Some(t)
            && logged_in(sm@, t, now)),
        needs_session(path@) && sm.reliable() && (bearer(view_opt(authorization)) matches Some(t)
            && logged_in(sm@, t, now)) ==> r is Ok,
        r matches Err((status, b)) ==> status == 401 && b@ == if DATA_PLANE@.is_prefix_of(path@) {
            no_token()
        } else {
            no_session()
        },
{
    if has_prefix(path, DATA_PLANE) {
        proof {
            lemma_planes_differ(path@);
        }
        return if read_admits(access_token, authorization, query) {
            Ok(())
        } else {
            Err((401, body("ERR_FORBIDDEN", "access token required")))
        };
    }
    if !guarded(path) {
        return Ok(());
    }
    let ok: bool = match bearer_token(authorization) {
        Some(t) => find_session(sm, t, now),
        None => false,
    };
    if ok {
        Ok(())
    } else {
        Err((401, body("ERR_SESSION_EXPIRED", "需要管理员会话")))
    }
}

/// Reading needs no session.
proof fn lemma_planes_differ(path: Seq<char>)
    ensures
        DATA_PLANE@.is_prefix_of(path) ==> !needs_session(path),
{
    reveal_strlit("/v1/");
    reveal_strlit("/api/v1/");
    assert(DATA_PLANE@[1] == 'v');
    assert("/api/v1/"@[1] == 'a');
}

// ---------------------------------------------------------------------------------------------
// Requests
// ---------------------------------------------------------------------------------------------

/// The end of a session of `ttl_secs` seconds that begins or goes on at `now`, in milliseconds; none
/// where the session does not end by itself. A sum that is too large stops at the greatest number.
pub open spec fn expiry(ttl_secs: u64, now: i64) -> Option<i64> {
    if ttl_secs == 0 {
        None
    } else if now + ttl_secs * 1000 > i64::MAX {
        Some(i64::MAX)
    } else {
        Some((now + ttl_secs * 1000) as i64)
    }
}

/// The end of a session of `ttl_secs` seconds that begins or goes on at `now`, in milliseconds.
pub fn session_expiry(ttl_secs: u64, now: i64) -> (r: Option<i64>)
    ensures
        r == expiry(ttl_secs, now),
{
    if ttl_secs == 0 {
        return None;
    }
    let end: i128 = now as i128 + ttl_secs as i128 * 1000;
    if end > i64::MAX as i128 {
        Some(i64::MAX)
    } else {
        Some(end as i64)
    }
}

/// What an entry `group/key` names, as a list of none or one; an entry without `/` names nothing.
pub open spec fn named_item(entry: Seq<char>) -> Seq<(Seq<char>, Seq<char>)> {
    match entry.index_of_first('/') {
        Some(at) => seq![(entry.take(at), entry.skip(at + 1))],
        None => Seq::empty(),
    }
}

/// The items that entries `group/key` name.
pub fn deletes_of(entries: &Vec<String>) -> (r: Vec<(String, String)>)
    ensures
        pair_views(r@) == gather(entries@.len(), |i: int| named_item(entries@[i]@)),
{
    let ghost f = |i: int| named_item(entries@[i]@);
    let mut out: Vec<(String, String)> = Vec::new();
    let mut i: usize = 0;
    assert(pair_views(out@) =~= gather(0, f));
    while i < entries.len()
        invariant
            i <= entries@.len(),
            f == (|i: int| named_item(entries@[i]@)),
            pair_views(out@) == gather(i as nat, f),
        decreases entries@.len() - i,
    {
        let entry: &str = entries[i].as_str();
        let ghost before = pair_views(out@);
        match split_once(entry, '/') {
            Some((g, k)) => {
                out.push((g.to_owned(), k.to_owned()));
                proof {
                    assert(entry@[g@.len() as int] == '/');
                    entry@.index_of_first_ensures('/');
                    let at = entry@.index_of_first('/')->0;
                    assert(entry@ =~= entry@.take(at) + seq!['/'] + entry@.skip(at + 1));
                    lemma_split_once(g@, k@, entry@.take(at), entry@.skip(at + 1), '/');
                    assert(pair_views(out@) =~= before + named_item(entry@));
                }
            },
            None => {
                proof {
                    entry@.index_of_first_ensures('/');
                }
                assert(named_item(entry@) =~= Seq::empty());
                assert(before + named_item(entry@) =~= before);
            },
        }
        assert(f(i as int) == named_item(entry@));
        i = i + 1;
    }
    out
}

/// The format of a configuration where none is asked for.
pub fn default_format() -> (r: String)
    ensures
        r@ == "yaml"@,
{
    "yaml".to_owned()
}

/// The number of audit entries where none is asked for.
pub fn default_audit_limit() -> (r: usize)
    ensures
        r == 100,
{
    100
}

/// The id of a request that brought none: made of the process and the number of such requests before.
pub fn new_request_id(process: u32, seq: u64) -> (r: String)
    ensures
        r@ == "auto-"@ + dec(process as nat) + "-"@ + dec(seq as nat),
{
    let mut s: String = "auto-".to_owned();
    s.append(decimal(process as u64).as_str());
    s.append("-");
    s.append(decimal(seq).as_str());
    s
}

// ---------------------------------------------------------------------------------------------
// Logging in
// ---------------------------------------------------------------------------------------------

/// Checks the password of a login, or gives the status and the body of the refusal.
pub fn check_password(given: &str, password: &str) -> (r: Result<(), (u16, ApiErrorBody)>)
    ensures
        match r {
            Ok(_) => given@ == password@,
            Err((status, b)) => given@ != password@ && status == 401 && b@ == plain_body(
                "ERR_FORBIDDEN"@,
                "密码错误"@,
            ),
        },
{
    if same(given, password) {
        Ok(())
    } else {
        Err((401, body("ERR_FORBIDDEN", "密码错误")))
    }
}

/// The command that records a login.
pub open spec fn login_of(token: Seq<char>, ttl_secs: u64, now: i64) -> CommandView {
    CommandView::SessionLogin {
        token_hash: hashed(token),
        issued_at: now,
        expires_at: expiry(ttl_secs, now),
    }
}

/// The command that records a login. The token itself is not recorded.
pub fn login_command(token: &str, ttl_secs: u64, now: i64) -> (r: Command)
    ensures
        r@ == login_of(token@, ttl_secs, now),
        r@ == (CommandView::SessionLogin {
            token_hash: hashed(token@),
            issued_at: now,
            expires_at: expiry(ttl_secs, now),
        }),
{
    Command::SessionLogin {
        token_hash: token_hash(token),
        issued_at: now,
        expires_at: session_expiry(ttl_secs, now),
    }
}

/// The address of a node with its scheme: `http://` where it has none.
pub open spec fn url_of(addr: Seq<char>) -> Seq<char> {
    if "http://"@.is_prefix_of(addr) || "https://"@.is_prefix_of(addr) {
        addr
    } else {
        "http://"@ + addr
    }
}

/// The address of a node with its scheme.
pub fn with_scheme(addr: &str) -> (r: String)
    ensures
        r@ == url_of(addr@),
{
    if has_prefix(addr, "http://") || has_prefix(addr, "https://") {
        addr.to_owned()
    } else {
        let mut s: String = "http://".to_owned();
        s.append(addr);
        s
    }
}

/// How a login goes on.
#[derive(Debug)]
pub enum LoginStep {
    /// The token stands for the session.
    Accepted,
    /// The leader decides: its URL.
    Forward(String),
    /// Wait a moment and try again.
    Retry,
    /// The status and the body of the refusal.
    Refused(u16, ApiErrorBody),
}

/// The refusal of a login for which no leader answered in time.
pub open spec fn login_late(step: LoginStep) -> bool {
    step matches LoginStep::Refused(status, b) && status == 504 && b@ == plain_body(
        "ERR_LEADER_REDIRECT"@,
        "login forwarding to leader timed out"@,
    )
}

/// Waits for the leader, or gives up where the time is over.
pub fn login_again(late: bool) -> (r: LoginStep)
    ensures
        if late {
            login_late(r)
        } else {
            r is Retry
        },
{
    if late {
        LoginStep::Refused(504, body("ERR_LEADER_REDIRECT", "login forwarding to leader timed out"))
    } else {
        LoginStep::Retry
    }
}

/// How a login goes on after the command was written; `failed` is the error, where there is one. A node
/// that is not the leader sends the login on.
pub fn after_login_write(failed: Option<Error>, late: bool) -> (r: LoginStep)
    ensures
        match failed {
            None => r is Accepted,
            Some(e) => if e@.kind == ErrorKind::LeaderRedirect {
                match e@.leader_hint {
                    Some(h) => if h.len() > 0 {
                        r matches LoginStep::Forward(u) && u@ == url_of(h) + "/api/v1/login"@
                    } else {
                        if late {
                            login_late(r)
                        } else {
                            r is Retry
                        }
                    },
                    None => if late {
                        login_late(r)
                    } else {
                        r is Retry
                    },
                }
            } else {
                r matches LoginStep::Refused(status, b) && status == status_of(e@.kind) && b@
                    == body_of(e@)
            },
        },
{
    match failed {
        None => LoginStep::Accepted,
        Some(e) => {
            if e.kind == ErrorKind::LeaderRedirect {
                match e.leader_hint {
                    Some(h) => {
                        if h.as_str().unicode_len() > 0 {
                            let mut u: String = with_scheme(h.as_str());
                            u.append("/api/v1/login");
                            LoginStep::Forward(u)
                        } else {
                            login_again(late)
                        }
                    },
                    None => login_again(late),
                }
            } else {
                let (status, b) = ApiError(e).response();
                LoginStep::Refused(status, b)
            }
        },
    }
}

/// The answer of the leader to a login that was sent on.
#[derive(Debug)]
pub struct LeaderReply {
    pub status: u16,
    pub token: Option<String>,
    pub code: Option<String>,
    pub message: Option<String>,
    /// The JSON text of what goes with an error.
    pub detail: Option<String>,
}

/// A text, or another where there is none.
pub open spec fn text_or(t: Option<String>, other: Seq<char>) -> Seq<char> {
    match t {
        Some(s) => s@,
        None => other,
    }
}

fn text_else(t: Option<String>, other: &str) -> (r: String)
    ensures
        r@ == text_or(t, other@),
{
    match t {
        Some(s) => s,
        None => other.to_owned(),
    }
}

/// The token or the refusal that the leader gave.
pub fn relayed_login(reply: LeaderReply) -> (r: Result<String, (u16, ApiErrorBody)>)
    ensures
        match r {
            Ok(t) => 200 <= reply.status < 300 && t@ == text_or(reply.token, Seq::empty()),
            Err((status, b)) => !(200 <= reply.status < 300) && status == reply.status && b@ == (
            ApiErrorBodyView {
                code: text_or(reply.code, "ERR_INTERNAL"@),
                message: text_or(reply.message, "login failed"@),
                detail: match reply.detail {
                    Some(d) => Some(BodyDetailView::Relayed(d@)),
                    None => None,
                },
            }),
        },
{
    if reply.status >= 200 && reply.status < 300 {
        let t: String = match reply.token {
            Some(t) => t,
            None => String::new(),
        };
        assert(t@ =~= text_or(reply.token, Seq::empty()));
        Ok(t)
    } else {
        let detail: Option<BodyDetail> = match reply.detail {
            Some(d) => Some(BodyDetail::Relayed(d)),
            None => None,
        };
        Err(
            (
                reply.status,
                ApiErrorBody {
                    code: text_else(reply.code, "ERR_INTERNAL"),
                    message: text_else(reply.message, "login failed"),
                    detail,
                },
            ),
        )
    }
}

// ---------------------------------------------------------------------------------------------
// Joining, on the side of the cluster
// ---------------------------------------------------------------------------------------------

/// What becomes of a node that asks to join.
#[derive(Debug)]
pub enum JoinDecision {
    /// It becomes a learner. `rejoined` says that it was one already.
    Learner { node: NodeInfo, rejoined: bool },
    /// The status and the body of the refusal.
    Refused(u16, ApiErrorBody),
}

/// Whether an address has the form `host:port` with a port from 1 to 65535.
pub open spec fn is_host_port(addr: Seq<char>) -> bool {
    let parts = split_on(addr, ':');
    parts.len() == 2 && parts[0].len() > 0 && (number_of(parts[1], 65535) matches Some(n) && n > 0)
}

/// Whether an address has the form `host:port` with a port from 1 to 65535.
fn host_port(addr: &str) -> (r: bool)
    ensures
        r == is_host_port(addr@),
{
    let parts: Vec<String> = split(addr, ':');
    let ghost all = split_on(addr@, ':');
    assert(views(parts@) == all);
    if parts.len() != 2 {
        return false;
    }
    assert(all[0] == parts@[0]@ && all[1] == parts@[1]@);
    match parse_number(parts[1].as_str(), 65535) {
        Some(n) => parts[0].as_str().unicode_len() > 0 && n > 0,
        None => false,
    }
}

/// Whether a node that asks to join becomes a learner.
pub open spec fn may_join(
    join_token: Option<Seq<char>>,
    authorization: Option<Seq<char>>,
    voters: Seq<u64>,
    node_id: u64,
    raft_addr: Seq<char>,
) -> bool {
    token_fits(join_token, bearer(authorization)) && is_host_port(raft_addr) && !voters.contains(node_id)
}

/// Decides what becomes of a node that asks to join. `authorization` is the header of that name,
/// `members` are the nodes of the cluster, and `voters` those that vote. A node that is a learner
/// already, because an answer was lost or it was restarted, is taken again; the id of a voter is refused.
pub fn decide_join(
    join_token: Option<&str>,
    authorization: Option<&str>,
    members: &Peers,
    voters: &Vec<u64>,
    node_id: u64,
    http_addr: &str,
    raft_addr: &str,
) -> (r: JoinDecision)
    ensures
        (r is Learner) == may_join(
            view_opt(join_token),
            view_opt(authorization),
            voters@,
            node_id,
            raft_addr@,
        ),
        match r {
            JoinDecision::Learner { node, rejoined } => {
                &&& token_fits(view_opt(join_token), bearer(view_opt(authorization)))
                &&& is_host_port(raft_addr@)
                &&& !voters@.contains(node_id)
                &&& rejoined == (peer(members@, node_id) is Some)
                &&& node@ == (NodeInfoView {
                    grpc_addr: ""@,
                    http_addr: http_addr@,
                    raft_addr: raft_addr@,
                })
            },
            JoinDecision::Refused(status, b) => if !token_fits(
                view_opt(join_token),
                bearer(view_opt(authorization)),
            ) {
                status == 401 && b@ == plain_body("ERR_FORBIDDEN"@, "join token required"@)
            } else if !is_host_port(raft_addr@) {
                status == 422 && b@ == body_of(validation_err("raft_addr must be host:port"@))
            } else {
                voters@.contains(node_id) && status == 409 && b@ == body_of(
                    conflict_err("node is a voter of the cluster"@),
                )
            },
        },
{
    if !token_admits(join_token, authorization) {
        return JoinDecision::Refused(401, body("ERR_FORBIDDEN", "join token required"));
    }
    if !host_port(raft_addr) {
        let e: Error = Error::validation("raft_addr must be host:port");
        let (status, b) = ApiError(e).response();
        return JoinDecision::Refused(status, b);
    }
    if is_in(voters, node_id) {
        let e: Error = Error::conflict("node is a voter of the cluster");
        let (status, b) = ApiError(e).response();
        return JoinDecision::Refused(status, b);
    }
    let rejoined: bool = members.get(node_id).is_some();
    let node: NodeInfo = NodeInfo {
        grpc_addr: "".to_owned(),
        http_addr: http_addr.to_owned(),
        raft_addr: raft_addr.to_owned(),
    };
    JoinDecision::Learner { node, rejoined }
}

/// The answer of a node that is not the leader to a node that asks to join.
pub fn join_elsewhere(leader: Option<String>) -> (r: (u16, ApiErrorBody))
    ensures
        r.0 == 428,
        r.1@ == body_of(redirect(text_or(leader, Seq::empty()))),
{
    let hint: String = match leader {
        Some(h) => h,
        None => String::new(),
    };
    assert(hint@ =~= text_or(leader, Seq::empty()));
    let e: Error = Error::new(
        ErrorKind::LeaderRedirect,
        "not leader, follow leader_hint",
    ).with_leader_hint(hint);
    let (_, b) = ApiError(e).response();
    (428, b)
}

} // verus!
