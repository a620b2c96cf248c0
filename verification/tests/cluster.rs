//! The first members of a cluster, how a node starts, and the command line.
use defing::admin::{
    admin_request, after_join, credential, is_success, join_body, placeholder, resolve_admin_password,
    AdminCmd, CascadeArg, Credential, JoinAnswer, JoinStep, PolicyArg, ReadArg,
};
use defing::cluster::{
    membership_diff, parse_bootstrap_peers, validate_bootstrap_peers, validate_seed_addr, NodeInfo, Peers,
};
use defing::error::ErrorKind;
use defing::model::{PublishPolicy, ReadMode, SharedCascadeMode};
use defing::startup::{check_master_key, cluster_options, gate_read, start_plan, StartPlan};

#[test]
fn placeholder_ok() {
    assert_eq!(placeholder(), "module not yet implemented");
}

fn sample_map() -> Peers {
    parse_bootstrap_peers("1@node1:8385@node1:8384,2@node2:8385@node2:8384,3@node3:8385@node3:8384")
        .unwrap()
}

#[test]
fn parse_full_map_three_part_required() {
    let m = sample_map();
    assert_eq!(m.len(), 3);
    assert_eq!(m.get(1).unwrap().raft_addr, "node1:8385");
    assert_eq!(m.get(1).unwrap().http_addr, "node1:8384");
    assert_eq!(m.get(3).unwrap().http_addr, "node3:8384");
    assert_eq!(m.get(2).unwrap().grpc_addr, "");
}

#[test]
fn parse_rejects_bad_entries() {
    assert!(parse_bootstrap_peers("1@a:1").is_err());
    assert!(parse_bootstrap_peers("1@node1:8385").is_err());
    assert!(parse_bootstrap_peers("1@a:1@b:2@c").is_err());
    assert!(parse_bootstrap_peers("1").is_err());
    assert!(parse_bootstrap_peers("x@a:1@b:2").is_err());
    assert!(parse_bootstrap_peers("0@a:1@b:2").is_err());
    assert!(parse_bootstrap_peers("1@nodomain@b:2").is_err());
    assert!(parse_bootstrap_peers("1@a:1@b").is_err());
    assert!(parse_bootstrap_peers("1@a:0@b:2").is_err());
    assert!(parse_bootstrap_peers("1@a:99999@b:2").is_err());
    assert!(parse_bootstrap_peers("1@a:1@b:abc").is_err());
    assert!(parse_bootstrap_peers("1@0.0.0.0:1@b:2").is_err());
    assert!(parse_bootstrap_peers("1@a:1@0.0.0.0:2").is_err());
    assert!(parse_bootstrap_peers("1@:1@b:2").is_err());
    assert!(parse_bootstrap_peers("1@a:1@a:2,1@b:3@b:4").is_err());
    assert!(parse_bootstrap_peers("1@a:1@a:2,2@a:1@b:4").is_err());
    assert!(parse_bootstrap_peers("1@a:1@b:2,2@c:3@b:2").is_err());
    assert!(parse_bootstrap_peers("").is_err());
    assert!(parse_bootstrap_peers(",").is_err());
}

#[test]
fn parse_tolerates_whitespace_and_trailing_comma() {
    let m = parse_bootstrap_peers(" 1@a:1@x:1 , 2@b:2@y:2 ,").unwrap();
    assert_eq!(m.len(), 2);
    assert_eq!(m.get(2).unwrap().raft_addr, "b:2");
    assert_eq!(m.get(2).unwrap().http_addr, "y:2");
}

#[test]
fn validate_local_consistency() {
    let m = sample_map();
    assert!(validate_bootstrap_peers(&m, 1, "node1:8385", "node1:8384").is_ok());
    assert!(validate_bootstrap_peers(&m, 3, "node3:8385", "node3:8384").is_ok());
    assert!(validate_bootstrap_peers(&m, 9, "node9:8385", "node9:8384").is_err());
    assert!(validate_bootstrap_peers(&m, 1, "wrong:8385", "node1:8384").is_err());
    assert!(validate_bootstrap_peers(&m, 1, "node1:8385", "wrong:8384").is_err());
    assert!(validate_bootstrap_peers(&m, 2, "node2:8385", "whatever:8384").is_err());
}

fn node(raft: &str, http: &str) -> NodeInfo {
    NodeInfo {
        grpc_addr: String::new(),
        http_addr: http.into(),
        raft_addr: raft.into(),
    }
}

fn peers(list: Vec<(u64, NodeInfo)>) -> Peers {
    let mut p = Peers::new();
    for (id, n) in list {
        p.insert(id, n);
    }
    p
}

#[test]
fn membership_diff_reports_inconsistencies() {
    let seed = peers(vec![(1, node("n1:8385", "n1:8384")), (2, node("n2:8385", "n2:8384"))]);
    let same = peers(vec![(1, node("n1:8385", "n1:8384")), (2, node("n2:8385", "n2:8384"))]);
    assert_eq!(membership_diff(&seed, &same), None);
    let cur1 = peers(vec![(1, node("n1:8385", "n1:8384"))]);
    let d = membership_diff(&seed, &cur1).expect("diff");
    assert!(d.contains("seed 含 node 2"), "{d}");
    let cur2 = peers(vec![
        (1, node("n1:8385", "n1:8384")),
        (2, node("n2:8385", "n2:8384")),
        (3, node("n3:8385", "n3:8384")),
    ]);
    let d = membership_diff(&seed, &cur2).expect("diff");
    assert!(d.contains("集群成员表含 node 3"), "{d}");
    let cur3 = peers(vec![(1, node("n1:8385", "n1:8384")), (2, node("n2-new:8385", "n2:8384"))]);
    let d = membership_diff(&seed, &cur3).expect("diff");
    assert!(d.contains("raft_addr 不一致"), "{d}");
    let cur4 = peers(vec![(1, node("n1:8385", "n1-new:8384")), (3, node("n3:8385", "n3:8384"))]);
    let d = membership_diff(&seed, &cur4).expect("diff");
    assert!(
        d.contains("http_addr 不一致")
            && d.contains("seed 含 node 2")
            && d.contains("集群成员表含 node 3"),
        "{d}"
    );
}

#[test]
fn seed_messages() {
    let m = |raw: &str| parse_bootstrap_peers(raw).unwrap_err();
    assert_eq!(m(""), "--bootstrap-peers 为空（须包含集群全部节点）");
    assert_eq!(m("1@a:1@b:2,0@c:1@d:2"), "--bootstrap-peers 第 2 项 node_id 不能为 0");
    assert_eq!(m("x@a:1@b:2"), "--bootstrap-peers 第 1 项 node_id 非法: x");
    assert_eq!(m("1@a:1@b:2,1@c:3@d:4"), "--bootstrap-peers 第 2 项 node_id 重复: 1");
    assert_eq!(
        validate_seed_addr("raft_addr", "a:0", 3).unwrap_err(),
        "--bootstrap-peers 第 3 项 raft_addr 端口不能为 0: a:0"
    );
    assert_eq!(
        validate_seed_addr("http_addr", "a:b:c", 1).unwrap_err(),
        "--bootstrap-peers 第 1 项 http_addr 须为 host:port 形式（暂不支持 IPv6 字面量）: a:b:c"
    );
    assert!(validate_seed_addr("x", "a:65535", 1).is_ok());
    assert!(validate_seed_addr("x", "a:65536", 1).is_err());
    assert!(validate_seed_addr("x", "a:+1", 1).is_ok());
}

#[test]
fn peers_stay_in_order() {
    let mut p = Peers::new();
    assert!(p.insert(5, node("e:1", "e:2")));
    assert!(p.insert(2, node("b:1", "b:2")));
    assert!(!p.insert(5, node("f:1", "f:2")));
    assert_eq!(p.len(), 2);
    assert_eq!(p.at(0).0, 2);
    assert!(p.get(7).is_none());
}

// ---- how a node starts ----

const SEED: &str = "1@node1:8385@node1:8384,2@node2:8385@node2:8384";

#[test]
fn plans_of_a_new_node() {
    let plan = |bootstrap, seed, join| {
        start_plan(bootstrap, seed, join, false, None, 1, "node1:8385", "node1:8384")
    };
    assert!(matches!(plan(true, None, None), Ok(StartPlan::Single)));
    match plan(false, Some(SEED), None) {
        Ok(StartPlan::Seed(p)) => assert_eq!(p.len(), 2),
        other => panic!("{other:?}"),
    }
    match plan(false, None, Some("http://n2:1")) {
        Ok(StartPlan::Join(u)) => assert_eq!(u, "http://n2:1"),
        other => panic!("{other:?}"),
    }
    assert_eq!(
        plan(false, None, None).unwrap_err(),
        "集群模式需要 --bootstrap、--bootstrap-peers、--join 或已有数据目录"
    );
    assert!(plan(false, Some("1@a:1@b:2"), None).unwrap_err().contains("不一致"));
    assert!(plan(false, Some("nonsense"), None).is_err());
}

#[test]
fn a_node_with_state_goes_on() {
    let current = peers(vec![(1, node("node1:8385", "node1:8384"))]);
    let plan = |seed, cur| start_plan(true, seed, Some("http://x"), true, cur, 1, "node1:8385", "node1:8384");
    match plan(Some(SEED), Some(&current)) {
        Ok(StartPlan::Resume { warning: Some(w) }) => assert!(w.contains("seed 含 node 2"), "{w}"),
        other => panic!("{other:?}"),
    }
    match plan(Some("nonsense"), Some(&current)) {
        Ok(StartPlan::Resume { warning: Some(w) }) => assert!(w.contains("解析失败"), "{w}"),
        other => panic!("{other:?}"),
    }
    assert!(matches!(plan(Some(SEED), None), Ok(StartPlan::Resume { warning: None })));
    assert!(matches!(plan(None, Some(&current)), Ok(StartPlan::Resume { warning: None })));
}

#[test]
fn options_that_are_missing() {
    let s = |t: &str| Some(t.to_string());
    let o = cluster_options(s("d"), Some(3), s("j"), s("r")).unwrap();
    assert_eq!((o.data_dir.as_str(), o.node_id), ("d", 3));
    assert_eq!((o.join_token.as_str(), o.raft_token.as_str()), ("j", "r"));
    assert!(cluster_options(None, None, None, None).unwrap_err().contains("--data-dir"));
    assert!(cluster_options(s("d"), None, None, None).unwrap_err().contains("--node-id"));
    assert!(cluster_options(s("d"), Some(1), None, None).unwrap_err().contains("--join-token"));
    assert!(cluster_options(s("d"), Some(1), s("j"), None).unwrap_err().contains("--raft-token"));
    assert!(check_master_key(true, false).is_ok());
    assert!(check_master_key(false, true).is_ok());
    assert!(check_master_key(false, false).unwrap_err().contains("--allow-no-master-key"));
}

#[test]
fn reads_that_must_be_up_to_date() {
    assert!(gate_read(ReadMode::Stale, true, false, None).is_ok());
    assert!(gate_read(ReadMode::Linear, false, false, None).is_ok());
    assert!(gate_read(ReadMode::Linear, true, true, None).is_ok());
    let e = gate_read(ReadMode::Linear, true, false, Some("n2:80".into())).unwrap_err();
    assert_eq!(e.kind, ErrorKind::LeaderRedirect);
    assert_eq!(e.leader_hint, Some("n2:80".to_string()));
}

// ---- the command line ----

#[test]
fn values_of_options() {
    assert_eq!(PublishPolicy::from(PolicyArg::Block), PublishPolicy::Block);
    assert_eq!(PublishPolicy::from(PolicyArg::Warn), PublishPolicy::Warn);
    assert_eq!(SharedCascadeMode::from(CascadeArg::Auto), SharedCascadeMode::Auto);
    assert_eq!(SharedCascadeMode::from(CascadeArg::Manual), SharedCascadeMode::Manual);
    assert_eq!(ReadMode::from(ReadArg::Linear), ReadMode::Linear);
    assert_eq!(ReadMode::from(ReadArg::Stale), ReadMode::Stale);
    assert_eq!(PublishPolicy::default(), PublishPolicy::Block);
    assert_eq!(SharedCascadeMode::default(), SharedCascadeMode::Auto);
    assert_eq!(ReadMode::default(), ReadMode::Stale);
    assert_eq!(resolve_admin_password(Some("pw"), "t"), ("pw".to_string(), false));
    assert_eq!(resolve_admin_password(None, "t"), ("dsh-admin-t".to_string(), true));
}

#[test]
fn requests_of_the_client() {
    let r = |c: AdminCmd| admin_request("http://h:1//", &c);
    assert!(r(AdminCmd::GenMasterKey).is_none());
    let q = r(AdminCmd::RotateMasterKey { new_key: "a\"b".into() }).unwrap();
    assert!(q.post);
    assert_eq!(q.url, "http://h:1///api/v1/admin/rotate-master-key");
    assert_eq!(q.body.unwrap(), "{\"new_key\":\"a\\\"b\"}");
    let q = r(AdminCmd::SetPassword { password: "p".into() }).unwrap();
    assert_eq!(q.body.unwrap(), "{\"password\":\"p\"}");
    let q = r(AdminCmd::Promote { node: 3 }).unwrap();
    assert_eq!((q.url.as_str(), q.body.unwrap().as_str()), ("http://h:1/api/v1/cluster/promote", "{\"node_id\":3}"));
    let q = r(AdminCmd::RemoveNode { node: 4 }).unwrap();
    assert_eq!((q.url.as_str(), q.body.unwrap().as_str()), ("http://h:1/api/v1/cluster/remove", "{\"node_id\":4}"));
    let q = r(AdminCmd::ForceLogout).unwrap();
    assert_eq!((q.post, q.url.as_str(), q.body), (true, "http://h:1/api/v1/admin/force-logout", None));
    let q = r(AdminCmd::Snapshot { out: None }).unwrap();
    assert_eq!((q.post, q.url.as_str()), (false, "http://h:1/api/v1/admin/snapshot"));
    let q = r(AdminCmd::RetentionStatus).unwrap();
    assert_eq!((q.post, q.url.as_str()), (false, "http://h:1/api/v1/admin/retention-status"));
    assert!(is_success(204) && !is_success(300) && !is_success(199));
}

#[test]
fn credentials_of_the_client() {
    match credential(Some("t".into()), Some("p".into())) {
        Ok(Credential::Token(t)) => assert_eq!(t, "t"),
        other => panic!("{other:?}"),
    }
    match credential(None, Some("p".into())) {
        Ok(Credential::Password(p)) => assert_eq!(p, "p"),
        other => panic!("{other:?}"),
    }
    assert_eq!(credential(None, None).unwrap_err(), "需要 --admin-token 或 --admin-password");
}

#[test]
fn a_join_follows_the_leader() {
    let url = || "http://n1:1".to_string();
    assert!(matches!(after_join(url(), JoinAnswer::Status(200, None), true), JoinStep::Joined));
    assert!(matches!(after_join(url(), JoinAnswer::Status(409, None), false), JoinStep::Joined));
    match after_join(url(), JoinAnswer::Status(428, Some("n2:1".into())), false) {
        JoinStep::Ask(u) => assert_eq!(u, "http://n2:1"),
        other => panic!("{other:?}"),
    }
    match after_join(url(), JoinAnswer::Status(428, Some("https://n2:1".into())), false) {
        JoinStep::Ask(u) => assert_eq!(u, "https://n2:1"),
        other => panic!("{other:?}"),
    }
    for a in [
        JoinAnswer::Status(428, Some("".into())),
        JoinAnswer::Status(428, None),
        JoinAnswer::Status(500, Some("n2:1".into())),
        JoinAnswer::Silence,
    ] {
        match after_join(url(), a, false) {
            JoinStep::Ask(u) => assert_eq!(u, "http://n1:1"),
            other => panic!("{other:?}"),
        }
    }
    match after_join(url(), JoinAnswer::Silence, true) {
        JoinStep::Failed(m) => assert_eq!(m, "join timed out (no leader responded)"),
        other => panic!("{other:?}"),
    }
    assert_eq!(
        join_body(7, "h:1", "r:2"),
        "{\"node_id\":7,\"http_addr\":\"h:1\",\"raft_addr\":\"r:2\"}"
    );
}
