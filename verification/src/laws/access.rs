//! Who is let in: sessions, tokens, paths and addresses.
use vstd::prelude::*;

use crate::api::{
    BodyDetailView, bearer, body_of, expiry, is_host_port, logged_in, login_of, may_join,
    named_item, needs_session, reads, session_holds, status_of, token_fits, url_of,
};
use crate::command::CommandView;
use crate::error::{ErrorKind, ErrorView, code_of};
use crate::keys::{K_SESSION, K_SESSIONS, k_admin_session};
use crate::laws::commands::{law_publish_is_read_back, law_rollback_restores};
use crate::laws::events::active_at;
use crate::laws::paths::lemma_prefix_of_sum;
use crate::laws::reading::law_sessions_are_listed;
use crate::laws::sound::sound;
use crate::model::{AdminSessionView, EntryView};
use crate::publish::reported;
use crate::step::admin_sessions;
use crate::store::{State, under};
use crate::text::{dec, is_digit, lemma_dec_value, lemma_split_join, lemma_split_single, split_on};
use crate::token::hashed;
use crate::transition::{publish, rollback, session_login, step, time_of};
use crate::write::first_version;

verus! {

/// A header that gives a token gives that token; any other header, and none, give nothing.
pub proof fn law_headers_give_their_token(token: Seq<char>, other: Seq<char>)
    ensures
        bearer(Some("Bearer "@ + token)) == Some(token),
        bearer(None) is None,
        bearer(Some(other)) matches Some(t) ==> other == "Bearer "@ + t,
{
    let pre = "Bearer "@;
    lemma_prefix_of_sum(pre, token);
    assert((pre + token).skip(pre.len() as int) =~= token);
    if pre.is_prefix_of(other) {
        assert(other =~= pre + other.skip(pre.len() as int));
    }
}

/// A session ends `ttl_secs` seconds after it began or went on, or not by itself where that is 0. An end that
/// is too far away is the last moment that there is.
pub proof fn law_sessions_last_their_time(ttl_secs: u64, now: i64)
    ensures
        expiry(ttl_secs, now) is None <==> ttl_secs == 0,
        expiry(ttl_secs, now) matches Some(e) ==> e <= now + ttl_secs * 1000 && (e < i64::MAX ==> e
            == now + ttl_secs * 1000) && (now + ttl_secs * 1000 <= i64::MAX ==> e == now + ttl_secs * 1000),
        now < i64::MAX ==> (expiry(ttl_secs, now) matches Some(e) ==> e > now),
{
}

/// Who has logged in is let in with that token until the session ends, and not after. Nobody else is let in by
/// that session.
pub proof fn law_login_lets_in(
    s: State,
    token: Seq<char>,
    other: Seq<char>,
    ttl_secs: u64,
    now: i64,
    later: i64,
)
    requires
        s.dom().finite(),
        step(s, login_of(token, ttl_secs, now), now) is Ok,
    ensures
        ({
            let t = step(s, login_of(token, ttl_secs, now), now)->Ok_0.0;
            &&& (ttl_secs == 0 || (later < now + ttl_secs * 1000 && later < i64::MAX)) ==> logged_in(
                t,
                token,
                later,
            )
            &&& ttl_secs > 0 && later >= now + ttl_secs * 1000 && !logged_in(s, token, later) ==> !logged_in(
                t,
                token,
                later,
            )
            &&& hashed(other) != hashed(token) ==> (logged_in(t, other, later) <==> logged_in(
                s,
                other,
                later,
            ))
        }),
{
    reveal(session_login);
    let t = step(s, login_of(token, ttl_secs, now), now)->Ok_0.0;
    assert(admin_sessions(t) == admin_sessions(s)) by {
        reveal_strlit("sess/admin");
        reveal_strlit("sess/admin/");
        assert(!K_SESSIONS@.is_prefix_of(K_SESSION@));
        assert(under(t, K_SESSIONS@) =~= under(s, K_SESSIONS@));
    }
    if logged_in(t, other, later) && hashed(other) != hashed(token) {
        assert(logged_in(s, other, later));
    }
}

/// A session with an id of its own lets in like any other, as long as it is there.
pub proof fn law_many_sessions_let_in(
    s: State,
    token: Seq<char>,
    ttl_secs: u64,
    session_id: Seq<char>,
    now: i64,
    later: i64,
)
    requires
        s.dom().finite(),
    ensures
        ({
            let login = CommandView::MultiSessionLogin {
                token_hash: hashed(token),
                issued_at: now,
                expires_at: expiry(ttl_secs, now),
                session_id,
            };
            &&& step(s, login, now) is Ok
            &&& (ttl_secs == 0 || (later < now + ttl_secs * 1000 && later < i64::MAX)) ==> logged_in(
                step(s, login, now)->Ok_0.0,
                token,
                later,
            )
        }),
{
    let login = CommandView::MultiSessionLogin {
        token_hash: hashed(token),
        issued_at: now,
        expires_at: expiry(ttl_secs, now),
        session_id,
    };
    let t = step(s, login, now)->Ok_0.0;
    let k = k_admin_session(session_id);
    let x = t[k]->Session_0;
    lemma_prefix_of_sum(K_SESSIONS@, session_id);
    law_sessions_are_listed(t, x);
    assert(admin_sessions(t).contains(x));
    let i = choose|i: int| 0 <= i < admin_sessions(t).len() && admin_sessions(t)[i] == x;
    assert(admin_sessions(t)[i] == x);
}

/// After everyone was logged out nobody is let in.
pub proof fn law_logout_of_all_shuts_everyone_out(s: State, token: Seq<char>, now: i64, later: i64)
    requires
        s.dom().finite(),
    ensures
        step(s, CommandView::MultiSessionLogoutAll, now) matches Ok(r) && !logged_in(r.0, token, later),
{
    let t = step(s, CommandView::MultiSessionLogoutAll, now)->Ok_0.0;
    assert(t.dom().subset_of(s.dom()));
    vstd::set_lib::lemma_set_subset_finite(s.dom(), t.dom());
    if admin_sessions(t).len() > 0 {
        let x = admin_sessions(t)[0];
        law_sessions_are_listed(t, x);
        assert(admin_sessions(t).contains(x));
        let k = choose|k: Seq<char>|
            t.contains_key(k) && K_SESSIONS@.is_prefix_of(k) && #[trigger] t[k] == EntryView::Session(x);
        assert(t.contains_key(k));
    }
}

/// A session that has ended stays ended.
pub proof fn law_ended_sessions_stay_ended(x: AdminSessionView, token: Seq<char>, a: i64, b: i64)
    requires
        a <= b,
        session_holds(x, token, b),
    ensures
        session_holds(x, token, a),
        x.expires_at matches Some(e) ==> b < e,
        x.token_hash == hashed(token),
{
}

/// Administration needs a session: all that stands below its prefix does, but for logging in and joining. No
/// other path does.
pub proof fn law_administration_is_guarded(rest: Seq<char>, path: Seq<char>)
    ensures
        needs_session("/api/v1/"@ + rest) <==> rest != "login"@ && rest != "cluster/join"@,
        needs_session(path) ==> exists|r: Seq<char>| path == #[trigger] ("/api/v1/"@ + r),
{
    reveal_strlit("/api/v1/");
    reveal_strlit("/api/v1/login");
    reveal_strlit("/api/v1/cluster/join");
    reveal_strlit("login");
    reveal_strlit("cluster/join");
    reveal_strlit("/healthz");
    reveal_strlit("/readyz");
    let pre = "/api/v1/"@;
    let p = pre + rest;
    lemma_prefix_of_sum(pre, rest);
    assert("/api/v1/login"@ =~= pre + "login"@);
    assert("/api/v1/cluster/join"@ =~= pre + "cluster/join"@);
    assert((pre + rest).skip(8) =~= rest);
    assert((pre + "login"@).skip(8) =~= "login"@);
    assert((pre + "cluster/join"@).skip(8) =~= "cluster/join"@);
    assert(p[1] == 'a');
    assert("/healthz"@[1] == 'h' && "/readyz"@[1] == 'r');
    if needs_session(path) {
        assert(path =~= pre + path.skip(8));
    }
}

/// A read is let in by the access token, in the header or in the query, and by nothing else.
pub proof fn law_reads_need_the_token(
    token: Seq<char>,
    header: Option<Seq<char>>,
    query: Option<Seq<char>>,
)
    ensures
        reads(Some(token), header, query) <==> header == Some("Bearer "@ + token) || query == Some(token),
        !reads(None, header, query),
{
    law_headers_give_their_token(token, Seq::empty());
    match header {
        Some(h) => {
            law_headers_give_their_token(token, h);
        },
        None => {},
    }
}

/// A call that a shared token guards is let in by that token; without a token to guard it, it is let in.
pub proof fn law_shared_tokens_guard(token: Seq<char>, header: Option<Seq<char>>)
    ensures
        token_fits(Some(token), bearer(header)) <==> header == Some("Bearer "@ + token),
        token_fits(None, bearer(header)),
{
    law_headers_give_their_token(token, Seq::empty());
    match header {
        Some(h) => {
            law_headers_give_their_token(token, h);
        },
        None => {},
    }
}

/// An entry names what stands before and behind its first slash; one without a slash names nothing.
pub proof fn law_entries_name_items(g: Seq<char>, k: Seq<char>)
    requires
        !g.contains('/'),
    ensures
        named_item(g + seq!['/'] + k) == seq![(g, k)],
        named_item(g).len() == 0,
{
    let e = g + seq!['/'] + k;
    e.index_of_first_ensures('/');
    g.index_of_first_ensures('/');
    assert(e[g.len() as int] == '/');
    let at = e.index_of_first('/')->0;
    if at < g.len() {
        assert(g[at] == e[at]);
    }
    assert(at == g.len());
    assert(e.take(at) =~= g);
    assert(e.skip(at + 1) =~= k);
}

/// The address of a node is a host, a colon and a port from 1 to 65535.
pub proof fn law_nodes_have_a_host_and_a_port(host: Seq<char>, port: nat)
    requires
        !host.contains(':'),
    ensures
        is_host_port(host + seq![':'] + dec(port)) <==> host.len() > 0 && 1 <= port <= 65535,
        !is_host_port(host),
{
    lemma_dec_value(port);
    let d = dec(port);
    assert(!d.contains(':')) by {
        if d.contains(':') {
            let i = choose|i: int| 0 <= i < d.len() && d[i] == ':';
            assert(is_digit(d[i]));
        }
    }
    lemma_split_single(host, ':');
    lemma_split_single(d, ':');
    lemma_split_join(host, d, ':');
    assert(host.push(':') + d =~= host + seq![':'] + d);
    assert(split_on(host + seq![':'] + d, ':') =~= seq![host, d]);
    assert(is_digit(d[0]));
}

/// An address with a scheme is the address, with `http://` before it where it had no scheme.
pub proof fn law_schemes_are_added_once(addr: Seq<char>)
    ensures
        url_of(url_of(addr)) == url_of(addr),
        url_of(addr) == addr || url_of(addr) == "http://"@ + addr,
        "http://"@.is_prefix_of(url_of(addr)) || "https://"@.is_prefix_of(url_of(addr)),
        "http://"@.is_prefix_of(addr) ==> url_of(addr) == addr,
        "https://"@.is_prefix_of(addr) ==> url_of(addr) == addr,
{
    lemma_prefix_of_sum("http://"@, addr);
}

/// What is the fault of a request is answered with a status from 400 on, what is not with 500; a missing thing,
/// a conflict and a missing session have the statuses that are usual for them.
pub proof fn law_statuses_say_whose_fault(kind: ErrorKind)
    ensures
        status_of(kind) == 500 <==> kind is VersionPruned || kind is Internal || kind is Storage || kind is Raft
            || kind is Crypto,
        status_of(kind) == 404 <==> kind is NotFound,
        status_of(kind) == 401 <==> kind is SessionExpired,
        status_of(kind) == 403 <==> kind is Forbidden,
        status_of(kind) == 429 <==> kind is LimitExceeded,
        status_of(kind) == 422 <==> kind is Validation || kind is PublishBlocked || kind is CycleRef,
        status_of(kind) == 409 <==> kind is Conflict || kind is NoDraft || kind is SessionInUse
            || kind is LeaderRedirect,
{
}

/// The answer to an error has its code, its message and, with it, the list that it has or else the address of
/// the leader.
pub proof fn law_answers_show_the_error(e: ErrorView)
    ensures
        body_of(e).message == e.message,
        body_of(e).code == code_of(e.kind),
        e.detail matches Some(d) ==> body_of(e).detail == Some(BodyDetailView::Listed(d)),
        e.detail is None ==> (e.leader_hint matches Some(h) ==> body_of(e).detail == Some(
            BodyDetailView::LeaderHint(h),
        )),
        e.detail is None && e.leader_hint is None ==> body_of(e).detail is None,
{
}

/// A node becomes a learner where it brings the token, does not vote already, and can be reached at its address.
pub proof fn law_nodes_join_with_the_token(
    token: Seq<char>,
    header: Option<Seq<char>>,
    voters: Seq<u64>,
    node_id: u64,
    host: Seq<char>,
    port: nat,
)
    requires
        !host.contains(':'),
    ensures
        may_join(Some(token), header, voters, node_id, host + seq![':'] + dec(port)) <==> {
            &&& header == Some("Bearer "@ + token)
            &&& host.len() > 0 && 1 <= port <= 65535
            &&& !voters.contains(node_id)
        },
{
    law_shared_tokens_guard(token, header);
    law_nodes_have_a_host_and_a_port(host, port);
}

/// A publish reports the version that it made; one that made none, because its request was answered before,
/// reports the active one.
pub proof fn law_publishes_report_their_version(s: State, c: CommandView, now: i64)
    requires
        sound(s),
        step(s, c, now) is Ok,
        c is Publish || c is Rollback,
    ensures
        ({
            let (t, events) = step(s, c, now)->Ok_0;
            let id = if c is Publish {
                c->Publish_project
            } else {
                c->Rollback_project
            };
            let branch = if c is Publish {
                c->Publish_branch
            } else {
                c->Rollback_branch
            };
            reported(first_version(events), Some(active_at(t, id, branch))) == active_at(t, id, branch)
        }),
{
    match c {
        CommandView::Publish { project, branch, comment, request_id, operator, ts } => {
            law_publish_is_read_back(s, project, branch, comment, request_id, time_of(ts, now), operator);
        },
        CommandView::Rollback { project, branch, to_version, comment, request_id, operator, ts } => {
            law_rollback_restores(
                s,
                project,
                branch,
                to_version,
                comment,
                request_id,
                time_of(ts, now),
                operator,
            );
        },
        _ => {},
    }
    let (t, events) = step(s, c, now)->Ok_0;
    if c is Publish {
        reveal(publish);
    } else {
        reveal(rollback);
    }
}

} // verus!
