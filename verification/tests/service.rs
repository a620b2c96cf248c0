//! What operators and clients see: metrics, rendering, the HTTP interface, and the stream of events.
use defing::api::{
    after_login_write, authorize, bearer_token, check_password, decide_join, default_audit_limit,
    default_format, deletes_of, guarded, join_elsewhere, login_again, login_command, new_request_id,
    read_admits, relayed_login, session_expiry, session_valid, token_admits, with_scheme, ApiError,
    BodyDetail, JoinDecision, LeaderReply, LoginStep,
};
use defing::cluster::{NodeInfo, Peers};
use defing::command::Command;
use defing::crypto::Cipher;
use defing::diff::set_item;
use defing::error::{Detail, Error, ErrorKind};
use defing::metrics::{
    audit_command, cluster_members, http_counters, is_ready, metrics_page, metrics_text, promoted_voters,
    reset_http_counters, Counts, HttpCounters, RaftStatus, Role, Totals,
};
use defing::model::{
    BranchName, ChangeKind, Ciphertext, DiffEntry, EventType, Float, ProjectId, PublishEvent, SnapshotMap,
    Value,
};
use defing::raftlog::{closed_range, log_index_from_key, log_key, snapshot_id, RangeEnd};
use defing::render::{plain_value, reveal_secrets, Format, Renderer};
use defing::state::StateMachine;
use defing::store::InMemoryStore;
use defing::token::token_hash;
use defing::watch::{live_event, replay_end, replay_events, snapshot_notice};
use defing::write::{after_attempt, apply_logged, outcome_of, write_local, WriteError, WriteStep};

fn sm() -> StateMachine<InMemoryStore> {
    StateMachine::new(InMemoryStore::new())
}

// ---- metrics ----

#[test]
fn metrics_contains_gauges() {
    let mut http = HttpCounters::new();
    reset_http_counters(&mut http);
    let text = metrics_text(&sm(), None, true, &http);
    assert!(text.contains("dsh_projects 0"));
    assert!(text.contains("dsh_master_key_ok 1"));
    assert!(text.contains("dsh_versions 0"));
    assert!(text.contains("dsh_gray_active 0"));
    assert!(text.contains("dsh_gray_publish_total 0"));
    assert!(text.contains("dsh_gray_promote_total 0"));
    assert!(text.contains("dsh_gray_abort_total 0"));
    assert!(text.contains("dsh_http_requests_total 0"));
    assert!(text.contains("dsh_http_5xx_total 0"));
    assert!(!text.contains("dsh_session_active"));
}

#[test]
fn http_counters_roundtrip() {
    let mut c = HttpCounters::new();
    reset_http_counters(&mut c);
    assert_eq!(http_counters(&c), (0, 0));
    for status in [200, 503, 404, 500, 302, 204, 499] {
        c.record(status);
    }
    assert_eq!(http_counters(&c), (7, 2));
    reset_http_counters(&mut c);
    assert_eq!(http_counters(&c), (0, 0));
}

#[test]
fn ready_dev_single() {
    assert!(is_ready(None));
}

#[test]
fn ready_in_a_cluster() {
    let status = |last| RaftStatus { role: Role::Follower, term: 2, last_log_index: last };
    assert!(!is_ready(Some(status(None))));
    assert!(is_ready(Some(status(Some(0)))));
}

#[test]
fn metrics_of_counts_that_were_read() {
    let c = Counts {
        projects: 1,
        totals: Totals { branches: 2, versions: 3, gray: 4 },
        shared: 5,
        shared_drafts: 6,
        audit: 7,
        gray_publish: 8,
        gray_promote: 9,
        gray_abort: 10,
    };
    let text = metrics_page(&c, None, false, &HttpCounters::new());
    for line in [
        "dsh_projects 1\n",
        "dsh_branches 2\n",
        "dsh_versions 3\n",
        "dsh_gray_active 4\n",
        "dsh_shared_items 5\n",
        "dsh_shared_drafts 6\n",
        "dsh_audit_entries 7\n",
        "dsh_gray_publish_total 8\n",
        "dsh_gray_promote_total 9\n",
        "dsh_gray_abort_total 10\n",
        "dsh_master_key_ok 0\n",
    ] {
        assert!(text.contains(line), "{line}");
    }
}

#[test]
fn metrics_of_a_state() {
    let mut s = sm();
    s.apply(&Command::ProjectCreate { name: "p".into(), operator: String::new(), ts: 0 }, 1).unwrap();
    s.apply(&audit_command("gray_publish", None, None, None, None, "{}".into(), "", 5), 2).unwrap();
    let raft = RaftStatus { role: Role::Leader, term: 7, last_log_index: Some(9) };
    let http = HttpCounters { requests: 3, errors: 1 };
    let text = metrics_text(&s, Some(raft), false, &http);
    for line in [
        "# HELP dsh_projects 项目数\n# TYPE dsh_projects gauge\ndsh_projects 1\n",
        "dsh_branches 3\n",
        "dsh_versions 0\n",
        "dsh_audit_entries 1\n",
        "dsh_gray_publish_total 1\n",
        "dsh_http_requests_total 3\n",
        "dsh_http_5xx_total 1\n",
        "dsh_master_key_ok 0\n",
        "dsh_raft_role 2\n",
        "dsh_raft_term 7\n",
        "dsh_raft_committed_index 9\n",
    ] {
        assert!(text.contains(line), "{line}\n{text}");
    }
}

#[test]
fn audit_entries_name_who_did_it() {
    match audit_command("login", None, None, Some(3), None, "{}".into(), "", 5) {
        Command::AuditAppend { entry } => {
            assert_eq!((entry.operator.as_str(), entry.action.as_str()), ("admin", "login"));
            assert_eq!((entry.seq, entry.ts, entry.version), (0, 5, Some(3)));
        }
        other => panic!("{other:?}"),
    }
    match audit_command("x", Some("p".into()), None, None, None, "{}".into(), "bob", 5) {
        Command::AuditAppend { entry } => assert_eq!(entry.operator, "bob"),
        other => panic!("{other:?}"),
    }
}

fn node(http: &str, raft: &str) -> NodeInfo {
    NodeInfo { grpc_addr: "".into(), http_addr: http.into(), raft_addr: raft.into() }
}

#[test]
fn members_of_a_cluster() {
    let mut p = Peers::new();
    p.insert(2, node("h2:1", "r2:1"));
    p.insert(1, node("h1:1", "r1:1"));
    let m = cluster_members(&p, Some(2), &vec![2]);
    assert_eq!(m.len(), 2);
    assert_eq!((m[0].node_id.as_str(), m[0].is_leader, m[0].is_voter), ("1", false, false));
    assert_eq!((m[1].http_addr.as_str(), m[1].is_leader, m[1].is_voter), ("h2:1", true, true));
    assert_eq!(promoted_voters(vec![1], 2), vec![1, 2]);
    assert_eq!(promoted_voters(vec![1, 2], 2), vec![1, 2]);
}

// ---- rendering ----

fn sample() -> SnapshotMap {
    let mut m = SnapshotMap::new();
    set_item(&mut m, "redis", "host", Value::String("127.0.0.1".into()));
    set_item(&mut m, "redis", "port", Value::Int(6379));
    set_item(&mut m, "redis", "tls", Value::Bool(true));
    set_item(
        &mut m,
        "db",
        "password",
        Value::Secret(Ciphertext {
            enc: "aes-256-gcm".into(),
            v: 1,
            dek_v: 1,
            nonce: "n".into(),
            ct: "c".into(),
            edek: "e".into(),
            edek_nonce: "en".into(),
        }),
    );
    m
}

#[test]
fn render_json() {
    let r = Renderer;
    let out = r.render(&sample(), Format::Json).unwrap();
    assert!(out.contains("\"redis\""));
    assert!(out.contains("127.0.0.1"));
    assert!(out.contains("***"));
}

#[test]
fn render_yaml() {
    let r = Renderer;
    let out = r.render(&sample(), Format::Yaml).unwrap();
    assert!(out.contains("host: 127.0.0.1"));
    assert!(out.contains("port: 6379"));
}

#[test]
fn render_toml() {
    let r = Renderer;
    let out = r.render(&sample(), Format::Toml).unwrap();
    assert!(out.contains("[redis]"));
    assert!(out.contains("host = \"127.0.0.1\""));
    assert!(out.contains("port = 6379"));
}

#[test]
fn json_yaml_equivalence() {
    let r = Renderer;
    let j = r.render(&sample(), Format::Json).unwrap();
    let y = r.render(&sample(), Format::Yaml).unwrap();
    let jv: serde_json::Value = serde_json::from_str(&j).unwrap();
    let yv: serde_json::Value = serde_yaml::from_str(&y).unwrap();
    assert_eq!(jv, yv);
}

#[test]
fn render_env() {
    let out = Renderer.render(&sample(), Format::Env).unwrap();
    assert_eq!(
        out,
        "DB__PASSWORD=***\nREDIS__HOST=127.0.0.1\nREDIS__PORT=6379\nREDIS__TLS=true\n"
    );
}

#[test]
fn formats_have_names() {
    assert_eq!(Format::parse("yaml").unwrap(), Format::Yaml);
    assert_eq!(Format::parse("toml").unwrap(), Format::Toml);
    assert_eq!(Format::parse("json").unwrap(), Format::Json);
    assert_eq!(Format::parse("env").unwrap(), Format::Env);
    let e = Format::parse("xml").unwrap_err();
    assert_eq!((e.kind, e.message.as_str()), (ErrorKind::Validation, "unsupported format: xml"));
    assert_eq!(Format::Yaml.mime(), "application/yaml");
    assert_eq!(Format::Toml.mime(), "application/toml");
    assert_eq!(Format::Json.mime(), "application/json");
}

#[test]
fn values_as_they_are_rendered() {
    assert_eq!(plain_value(&Value::String("a\"".into())), "\"a\\\"\"");
    assert_eq!(plain_value(&Value::Int(-4)), "-4");
    assert_eq!(plain_value(&Value::Float(Float::parse("1.5").unwrap())), "1.5");
    assert_eq!(plain_value(&Value::Bool(false)), "false");
    assert_eq!(plain_value(&Value::Json("[1]".into())), "[1]");
    assert_eq!(plain_value(&Value::Json("{bad".into())), "\"{bad\"");
    assert_eq!(plain_value(&Value::Array(vec!["x".into(), "y".into()])), "[\"x\",\"y\"]");
}

#[test]
fn secrets_in_the_clear() {
    let cipher = Cipher::new([3u8; 32]);
    let mut m = sample();
    set_item(&mut m, "redis", "pass", Value::Secret(cipher.encrypt_secret("密码".as_bytes()).unwrap()));
    let out = reveal_secrets(&cipher, &m);
    assert_eq!(out.get("redis").unwrap().get("pass").unwrap(), &Value::String("密码".into()));
    assert_eq!(out.get("db").unwrap().get("password").unwrap(), &Value::String("***".into()));
    assert_eq!(out.get("redis").unwrap().get("port").unwrap(), &Value::Int(6379));
    let bad = cipher.encrypt_secret(&[0xff, b'a']).unwrap();
    set_item(&mut m, "redis", "pass", Value::Secret(bad));
    let out = reveal_secrets(&cipher, &m);
    assert_eq!(out.get("redis").unwrap().get("pass").unwrap(), &Value::String("\u{fffd}a".into()));
}

#[test]
fn toml_has_no_null() {
    let mut m = SnapshotMap::new();
    set_item(&mut m, "g", "k", Value::Json("null".into()));
    let e = Renderer.render(&m, Format::Toml).unwrap_err();
    assert_eq!(e.kind, ErrorKind::Validation);
    assert!(e.message.contains("toml（键需为合法标识符）: "));
}

// ---- events ----

fn event(project: &str, branch: &str, version: u64) -> PublishEvent {
    PublishEvent {
        project: ProjectId(project.into()),
        branch: BranchName(branch.into()),
        version,
        ty: EventType::ValuePublish,
        structure_version: 1,
        comment: "c".into(),
        request_id: "r".into(),
        changes: vec![],
        gray: false,
    }
}

#[test]
fn events_reach_those_who_follow_the_branch() {
    assert_eq!(live_event(&event("p", "dev", 2), "p", "dev", 1).unwrap().version, 2);
    assert!(live_event(&event("p", "dev", 2), "p", "dev", 2).is_none());
    assert!(live_event(&event("p", "dev", 2), "p", "prod", 1).is_none());
    assert!(live_event(&event("q", "dev", 2), "p", "dev", 1).is_none());
    let mut gray = event("p", "dev", 2);
    gray.gray = true;
    assert!(live_event(&gray, "p", "dev", 10).is_some());
    assert_eq!(replay_end(&vec![event("p", "dev", 3), event("p", "dev", 10), event("p", "dev", 7)]), 10);
    assert_eq!(replay_end(&vec![]), 0);
}

#[test]
fn events_carry_no_secret() {
    let mut e = event("p", "dev", 2);
    let ct = Cipher::new([1u8; 32]).encrypt_secret(b"x").unwrap();
    e.changes.push(DiffEntry {
        group: "g".into(),
        key: "k".into(),
        kind: ChangeKind::Upsert,
        new_value: Some(Value::Secret(ct)),
    });
    let live = live_event(&e, "p", "dev", 0).unwrap();
    assert_eq!(live.changes[0].new_value, Some(Value::String("***".into())));
    let replay = replay_events(&vec![e]);
    assert_eq!(replay[0].changes[0].new_value, Some(Value::String("***".into())));
}

#[test]
fn a_notice_asks_for_the_whole() {
    let n = snapshot_notice("p", "dev", 4);
    assert_eq!((n.project.as_str(), n.branch.as_str(), n.version), ("p", "dev", 4));
    assert!(n.changes.is_empty());
}

// ---- writes and the log ----

#[test]
fn writes_report_the_first_version() {
    assert_eq!(outcome_of(vec![]).version, 0);
    assert_eq!(outcome_of(vec![event("p", "dev", 4), event("p", "prod", 9)]).version, 4);
    let mut s = sm();
    let cmd = Command::ProjectCreate { name: "p".into(), operator: String::new(), ts: 0 };
    assert_eq!(write_local(&mut s, &cmd, 1).unwrap().version, 0);
    assert_eq!(write_local(&mut s, &cmd, 2).unwrap_err().kind, ErrorKind::Conflict);
    let mut t = sm();
    apply_logged(&mut t, &cmd, 1).unwrap();
    assert_eq!(t.dump_all().unwrap(), s.dump_all().unwrap());
}

fn not_leader(http_addr: Option<&str>) -> WriteError {
    WriteError::ForwardToLeader {
        leader_id: Some(2),
        http_addr: http_addr.map(String::from),
    }
}

#[test]
fn attempts_to_write() {
    match after_attempt(Err(not_leader(Some("a:1"))), Some("b:1".into()), false) {
        WriteStep::Done(Err(e)) => {
            assert_eq!(e.kind, ErrorKind::LeaderRedirect);
            assert_eq!(e.leader_hint, Some("a:1".to_string()));
        }
        other => panic!("{other:?}"),
    }
    match after_attempt(Err(not_leader(None)), Some("b:1".into()), false) {
        WriteStep::Done(Err(e)) => assert_eq!(e.leader_hint, Some("b:1".to_string())),
        other => panic!("{other:?}"),
    }
    assert!(matches!(after_attempt(Err(WriteError::Other("busy".into())), None, false), WriteStep::Retry));
    match after_attempt(Err(WriteError::Other("busy".into())), None, true) {
        WriteStep::Done(Err(e)) => assert_eq!(e.message, "client_write timeout"),
        other => panic!("{other:?}"),
    }
    match after_attempt(Ok(Ok(outcome_of(vec![]))), None, true) {
        WriteStep::Done(Ok(w)) => assert_eq!(w.version, 0),
        other => panic!("{other:?}"),
    }
}

#[test]
fn keys_of_the_log_keep_its_order() {
    assert_eq!(log_key(1), [0, 0, 0, 0, 0, 0, 0, 1]);
    assert_eq!(log_key(0x0102), [0, 0, 0, 0, 0, 0, 1, 2]);
    for i in [0, 1, 255, 256, u64::MAX] {
        assert_eq!(log_index_from_key(&log_key(i)), i);
    }
    assert!(log_key(255) < log_key(256));
    assert_eq!(closed_range(RangeEnd::Included(2), RangeEnd::Excluded(5)), (2, 4));
    assert_eq!(closed_range(RangeEnd::Excluded(2), RangeEnd::Included(5)), (3, 5));
    assert_eq!(closed_range(RangeEnd::Unbounded, RangeEnd::Unbounded), (0, u64::MAX));
    assert_eq!(snapshot_id(Some(5), 2), "5-2");
}

// ---- the HTTP interface ----

#[test]
fn statuses_of_errors() {
    let status = |kind| ApiError(Error::new(kind, "m")).response().0;
    assert_eq!(status(ErrorKind::NotFound), 404);
    assert_eq!(status(ErrorKind::Conflict), 409);
    assert_eq!(status(ErrorKind::NoDraft), 409);
    assert_eq!(status(ErrorKind::SessionInUse), 409);
    assert_eq!(status(ErrorKind::SessionExpired), 401);
    assert_eq!(status(ErrorKind::Forbidden), 403);
    assert_eq!(status(ErrorKind::Validation), 422);
    assert_eq!(status(ErrorKind::PublishBlocked), 422);
    assert_eq!(status(ErrorKind::CycleRef), 422);
    assert_eq!(status(ErrorKind::LimitExceeded), 429);
    assert_eq!(status(ErrorKind::LeaderRedirect), 409);
    assert_eq!(status(ErrorKind::Storage), 500);
    let (_, b) = ApiError(Error::new(ErrorKind::LeaderRedirect, "m").with_leader_hint("n:1".into())).response();
    assert_eq!(b.code, "ERR_LEADER_REDIRECT");
    assert!(matches!(b.detail, Some(BodyDetail::LeaderHint(h)) if h == "n:1"));
    let e = Error::publish_blocked(Detail { name: "errors".into(), messages: vec!["x".into()] });
    let (_, b) = ApiError(e.with_leader_hint("n:1".into())).response();
    assert!(matches!(b.detail, Some(BodyDetail::Listed(d)) if d.messages == vec!["x".to_string()]));
}

#[test]
fn paths_that_need_a_session() {
    for open in ["/api/v1/login", "/healthz", "/readyz", "/api/v1/cluster/join", "/metrics", "/v1/projects/p"] {
        assert!(!guarded(open), "{open}");
    }
    for shut in ["/api/v1/projects", "/api/v1/login/x", "/api/v1/"] {
        assert!(guarded(shut), "{shut}");
    }
    assert_eq!(bearer_token(Some("Bearer abc")), Some("abc"));
    assert_eq!(bearer_token(Some("bearer abc")), None);
    assert_eq!(bearer_token(None), None);
}

#[test]
fn who_is_let_in() {
    let mut s = sm();
    let path = "/api/v1/projects";
    assert!(authorize(&s, "/healthz", None, None, None, 0).is_ok());
    let (status, b) = authorize(&s, path, None, None, Some("t"), 0).unwrap_err();
    assert_eq!((status, b.code.as_str(), b.message.as_str()), (401, "ERR_SESSION_EXPIRED", "需要管理员会话"));
    s.apply(&login_command("tok", 10, 1000), 1).unwrap();
    assert!(authorize(&s, path, Some("Bearer tok"), None, Some("t"), 1000).is_ok());
    assert!(authorize(&s, path, Some("Bearer tok"), None, Some("t"), 10_999).is_ok());
    assert!(authorize(&s, path, Some("Bearer tok"), None, Some("t"), 11_000).is_err());
    assert!(authorize(&s, path, Some("Bearer other"), None, Some("t"), 1000).is_err());
    s.apply(
        &Command::MultiSessionLogin {
            token_hash: token_hash("second"),
            issued_at: 1,
            expires_at: None,
            session_id: "s2".into(),
        },
        2,
    )
    .unwrap();
    assert!(authorize(&s, path, Some("Bearer second"), None, Some("t"), i64::MAX).is_ok());
    assert!(session_valid(&s.get_session().unwrap().unwrap(), "tok", 0));
}

#[test]
fn shared_tokens() {
    assert!(token_admits(None, None));
    assert!(!token_admits(Some("tok-123"), None));
    assert!(token_admits(Some("tok-123"), Some("Bearer tok-123")));
    assert!(!token_admits(Some("tok-123"), Some("Bearer tok-124")));
    assert!(read_admits(Some("t"), None, Some("t")));
    assert!(read_admits(Some("t"), Some("Bearer t"), None));
    assert!(!read_admits(Some("t"), None, Some("u")));
    assert!(!read_admits(None, None, None));
    assert!(!read_admits(None, Some("Bearer t"), Some("t")));
}

#[test]
fn sessions_end() {
    assert_eq!(session_expiry(0, 5), None);
    assert_eq!(session_expiry(86_400, 1000), Some(86_401_000));
    assert_eq!(session_expiry(u64::MAX, 0), Some(i64::MAX));
}

#[test]
fn parts_of_requests() {
    let texts = vec!["g/k".to_string(), "none".to_string(), "a/b/c".to_string(), "/x".to_string()];
    assert_eq!(
        deletes_of(&texts),
        vec![
            ("g".to_string(), "k".to_string()),
            ("a".to_string(), "b/c".to_string()),
            ("".to_string(), "x".to_string()),
        ]
    );
    assert_eq!(default_format(), "yaml");
    assert_eq!(default_audit_limit(), 100);
    assert_eq!(new_request_id(12, 3), "auto-12-3");
    assert_eq!(with_scheme("n:1"), "http://n:1");
    assert_eq!(with_scheme("https://n:1"), "https://n:1");
}

#[test]
fn a_login_goes_on() {
    assert!(check_password("a", "a").is_ok());
    let (status, b) = check_password("a", "b").unwrap_err();
    assert_eq!((status, b.code.as_str(), b.message.as_str()), (401, "ERR_FORBIDDEN", "密码错误"));
    assert!(matches!(after_login_write(None, true), LoginStep::Accepted));
    let redirect = |hint: &str| Some(Error::new(ErrorKind::LeaderRedirect, "m").with_leader_hint(hint.into()));
    match after_login_write(redirect("n2:1"), true) {
        LoginStep::Forward(u) => assert_eq!(u, "http://n2:1/api/v1/login"),
        other => panic!("{other:?}"),
    }
    assert!(matches!(after_login_write(redirect(""), false), LoginStep::Retry));
    match login_again(true) {
        LoginStep::Refused(504, b) => assert_eq!(b.message, "login forwarding to leader timed out"),
        other => panic!("{other:?}"),
    }
    match after_login_write(Some(Error::new(ErrorKind::SessionInUse, "m")), false) {
        LoginStep::Refused(409, b) => assert_eq!(b.code, "ERR_SESSION_IN_USE"),
        other => panic!("{other:?}"),
    }
}

#[test]
fn the_leader_answers_a_login() {
    let reply = |status, token: Option<&str>, code: Option<&str>| LeaderReply {
        status,
        token: token.map(String::from),
        code: code.map(String::from),
        message: None,
        detail: Some("{}".into()),
    };
    assert_eq!(relayed_login(reply(200, Some("t"), None)).unwrap(), "t");
    assert_eq!(relayed_login(reply(201, None, None)).unwrap(), "");
    let (status, b) = relayed_login(reply(409, None, Some("ERR_SESSION_IN_USE"))).unwrap_err();
    assert_eq!((status, b.code.as_str(), b.message.as_str()), (409, "ERR_SESSION_IN_USE", "login failed"));
    assert!(matches!(b.detail, Some(BodyDetail::Relayed(_))));
    let (_, b) = relayed_login(reply(500, None, None)).unwrap_err();
    assert_eq!(b.code, "ERR_INTERNAL");
}

#[test]
fn join_is_idempotent_for_existing_learner() {
    let mut members = Peers::new();
    members.insert(1, node("127.0.0.1:9001", "127.0.0.1:7001"));
    let voters = vec![1];
    let join = |members: &Peers, id: u64| {
        decide_join(None, None, members, &voters, id, &format!("127.0.0.1:9{id:02}"), &format!("127.0.0.1:7{id:02}"))
    };
    let first = match join(&members, 2) {
        JoinDecision::Learner { node, rejoined } => {
            assert!(!rejoined);
            node
        }
        other => panic!("{other:?}"),
    };
    members.insert(2, first);
    assert!(matches!(join(&members, 2), JoinDecision::Learner { rejoined: true, .. }));
    assert!(matches!(join(&members, 3), JoinDecision::Learner { rejoined: false, .. }));
    assert!(matches!(join(&members, 1), JoinDecision::Refused(409, _)));
}

#[test]
fn join_still_validates_address_format() {
    let members = Peers::new();
    match decide_join(None, None, &members, &vec![], 9, "127.0.0.1:9009", "not-a-host-port") {
        JoinDecision::Refused(status, _) => assert_eq!(status, 422),
        other => panic!("{other:?}"),
    }
}

#[test]
fn a_join_needs_its_token() {
    let members = Peers::new();
    let join = |auth| decide_join(Some("demo"), auth, &members, &vec![], 9, "h:1", "r:1");
    assert!(matches!(join(None), JoinDecision::Refused(401, _)));
    assert!(matches!(join(Some("Bearer x")), JoinDecision::Refused(401, _)));
    assert!(matches!(join(Some("Bearer demo")), JoinDecision::Learner { rejoined: false, .. }));
    let (status, b) = join_elsewhere(Some("n1:1".into()));
    assert_eq!((status, b.code.as_str()), (428, "ERR_LEADER_REDIRECT"));
    assert!(matches!(b.detail, Some(BodyDetail::LeaderHint(h)) if h == "n1:1"));
}

#[test]
fn the_data_plane_needs_a_token() {
    let s = StateMachine::new(InMemoryStore::new());
    let path = "/v1/projects/p/branches/dev/snapshot";
    let (status, b) = authorize(&s, path, None, None, Some("t"), 0).unwrap_err();
    assert_eq!((status, b.code.as_str()), (401, "ERR_FORBIDDEN"));
    assert!(authorize(&s, path, None, None, None, 0).is_err());
    assert!(authorize(&s, path, Some("Bearer t"), None, None, 0).is_err());
    assert!(authorize(&s, path, Some("Bearer t"), None, Some("t"), 0).is_ok());
    assert!(authorize(&s, path, None, Some("t"), Some("t"), 0).is_ok());
    assert!(authorize(&s, path, None, Some("u"), Some("t"), 0).is_err());
}

#[test]
fn join_asks_for_a_raft_address_only() {
    let members = Peers::new();
    for (http, raft, status) in [
        ("", "0.0.0.0:7001", None),
        ("nonsense", "node2:7001", None),
        ("h:1", "node2", Some(422)),
        ("h:1", ":7001", Some(422)),
        ("h:1", "node2:0", Some(422)),
        ("h:1", "node2:65536", Some(422)),
        ("h:1", "node2:x", Some(422)),
    ] {
        let got = match decide_join(None, None, &members, &vec![], 9, http, raft) {
            JoinDecision::Learner { .. } => None,
            JoinDecision::Refused(status, _) => Some(status),
        };
        assert_eq!(got, status, "{http} {raft}");
    }
}
