//! The laws of the state machine, on concrete values.
use defing::command::{Command, DraftUpdateItem};
use defing::error::{Error, ErrorKind};
use defing::keys::audit_key;
use defing::model::{
    AuditEntry, BranchName, Ciphertext, Entry, EventType, GroupDef, ItemDef, ProjectId, RefBinding,
    SharedItem, Value, ValueType,
};
use defing::publish::check_draft_rev;
use defing::state::{valid_branch, valid_name, StateMachine};
use defing::store::InMemoryStore;

type Machine = StateMachine<InMemoryStore>;

fn item(key: &str) -> ItemDef {
    ItemDef {
        key: key.into(),
        ty: ValueType::String,
        required: false,
        secret: false,
        validate: None,
        description: None,
        shared_ref: None,
    }
}

fn groups(keys: &[&str]) -> Vec<GroupDef> {
    vec![GroupDef { name: "g".into(), items: keys.iter().map(|k| item(k)).collect() }]
}

fn create(s: &mut Machine, name: &str) {
    s.apply(&Command::ProjectCreate { name: name.into(), operator: String::new(), ts: 0 }, 1).unwrap();
}

fn structure(s: &mut Machine, name: &str, base: u64, keys: &[&str]) -> usize {
    s.apply(
        &Command::StructureDraftSet {
            project: name.into(),
            base_version: base,
            groups: groups(keys),
            operator: String::new(),
        },
        2,
    )
    .unwrap();
    s.apply(
        &Command::PublishStructure {
            project: name.into(),
            comment: "s".into(),
            request_id: format!("s{base}"),
            operator: String::new(),
            ts: 0,
        },
        3,
    )
    .unwrap()
    .len()
}

fn draft(s: &mut Machine, name: &str, branch: &str, key: &str, value: &str) {
    s.apply(
        &Command::DraftUpdate {
            project: name.into(),
            branch: branch.into(),
            updates: vec![DraftUpdateItem {
                group: "g".into(),
                key: key.into(),
                value: Value::String(value.into()),
            }],
            deletes: vec![],
            operator: String::new(),
            ts: 0,
        },
        4,
    )
    .unwrap();
}

fn publish(s: &mut Machine, name: &str, branch: &str, request: &str) -> u64 {
    s.apply(
        &Command::Publish {
            project: name.into(),
            branch: branch.into(),
            comment: "c".into(),
            request_id: request.into(),
            operator: String::new(),
            ts: 0,
        },
        5,
    )
    .unwrap()[0]
        .version
}

fn text(s: &Machine, name: &str, branch: &str, version: u64, key: &str) -> Option<String> {
    let cfg = s.get_config(&name.into(), &branch.into(), version).unwrap();
    match cfg.groups.get("g").and_then(|g| g.get(key)) {
        Some(Value::String(t)) => Some(t.clone()),
        Some(other) => panic!("{other:?}"),
        None => None,
    }
}

fn with_project(name: &str) -> Machine {
    let mut s = StateMachine::new(InMemoryStore::new());
    create(&mut s, name);
    assert_eq!(structure(&mut s, name, 1, &["a", "b"]), 3);
    s
}

#[test]
fn what_is_published_is_read_back() {
    let mut s = with_project("p");
    draft(&mut s, "p", "dev", "a", "1");
    assert_eq!(text(&s, "p", "dev", 0, "a"), None);
    assert_eq!(publish(&mut s, "p", "dev", "r1"), 2);
    assert_eq!(text(&s, "p", "dev", 0, "a"), Some("1".into()));
    let st = s.get_branch_state(&"p".into(), &"dev".into()).unwrap().unwrap();
    assert!(st.value_draft.is_empty());
    assert_eq!(st.last_request_id, Some("r1".to_string()));
}

#[test]
fn versions_do_not_change() {
    let mut s = with_project("p");
    for i in 1..=3 {
        draft(&mut s, "p", "dev", "a", &i.to_string());
        publish(&mut s, "p", "dev", &format!("r{i}"));
    }
    let before = s.version_history(&"p".into(), &"dev".into()).unwrap();
    structure(&mut s, "p", 2, &["a", "c"]);
    s.apply(
        &Command::Rollback {
            project: "p".into(),
            branch: "dev".into(),
            to_version: 2,
            comment: "back".into(),
            request_id: "rb".into(),
            operator: String::new(),
            ts: 0,
        },
        9,
    )
    .unwrap();
    assert_eq!(text(&s, "p", "dev", 0, "a"), Some("1".into()));
    for v in 2..=4 {
        assert_eq!(text(&s, "p", "dev", v, "a"), Some((v - 1).to_string()));
    }
    let after = s.version_history(&"p".into(), &"dev".into()).unwrap();
    assert_eq!(after[..before.len()], before[..]);
    assert_eq!(after.len(), before.len() + 2);
    assert_eq!(after.last().unwrap().event_ty, Some(EventType::Rollback));
}

#[test]
fn drafts_are_not_read() {
    let mut s = with_project("p");
    draft(&mut s, "p", "dev", "a", "1");
    publish(&mut s, "p", "dev", "r1");
    let before = s.get_config(&"p".into(), &"dev".into(), 0).unwrap();
    draft(&mut s, "p", "dev", "a", "2");
    s.apply(
        &Command::StructureDraftSet {
            project: "p".into(),
            base_version: 2,
            groups: groups(&["z"]),
            operator: String::new(),
        },
        7,
    )
    .unwrap();
    let after = s.get_config(&"p".into(), &"dev".into(), 0).unwrap();
    assert_eq!(before.version, after.version);
    assert_eq!(before.structure_version, after.structure_version);
    assert_eq!(before.groups, after.groups);
}

#[test]
fn a_structure_advances_every_branch() {
    let mut s = with_project("p");
    draft(&mut s, "p", "dev", "a", "1");
    publish(&mut s, "p", "dev", "r1");
    draft(&mut s, "p", "dev", "a", "2");
    draft(&mut s, "p", "dev", "b", "3");
    assert_eq!(structure(&mut s, "p", 2, &["a"]), 3);
    for (branch, version) in [("dev", 3), ("prod", 2), ("test", 2)] {
        let st = s.get_branch_state(&"p".into(), &branch.into()).unwrap().unwrap();
        assert_eq!((st.active_version, st.structure_version), (version, 3), "{branch}");
    }
    assert_eq!(text(&s, "p", "dev", 0, "a"), Some("1".into()));
    let st = s.get_branch_state(&"p".into(), &"dev".into()).unwrap().unwrap();
    let left = st.value_draft.get("g").unwrap();
    assert!(left.contains_key("a") && !left.contains_key("b"));
    assert!(s.get_structure_draft(&"p".into()).unwrap().is_none());
}

#[test]
fn a_stale_structure_draft_is_refused() {
    let mut s = with_project("p");
    let e = s
        .apply(
            &Command::StructureDraftSet {
                project: "p".into(),
                base_version: 1,
                groups: groups(&["a"]),
                operator: String::new(),
            },
            7,
        )
        .unwrap_err();
    assert_eq!(e.kind, ErrorKind::Conflict);
    assert_eq!(e.message, "base_version 1 != current structure version 2");
}

#[test]
fn a_branch_starts_with_the_values_of_its_source() {
    let mut s = with_project("p");
    draft(&mut s, "p", "dev", "a", "1");
    publish(&mut s, "p", "dev", "r1");
    s.apply(
        &Command::BranchCreate {
            project: "p".into(),
            name: "gray".into(),
            source: Some("dev".into()),
            operator: String::new(),
            ts: 0,
        },
        6,
    )
    .unwrap();
    assert_eq!(publish(&mut s, "p", "gray", "r2"), 1);
    assert_eq!(text(&s, "p", "gray", 0, "a"), Some("1".into()));
    let names: Vec<String> =
        s.list_branches(&"p".into()).unwrap().into_iter().map(|b| b.0).collect();
    assert_eq!(names, vec!["dev", "gray", "prod", "test"]);
}

fn draft_shared(s: &mut Machine, group: &str, key: &str, value: &str) {
    s.apply(
        &Command::SharedDraftUpdate {
            item: SharedItem {
                group: group.into(),
                key: key.into(),
                ty: ValueType::String,
                secret: false,
                required: false,
                value: Value::String(value.into()),
                version: 0,
                description: None,
            },
            operator: String::new(),
        },
        1,
    )
    .unwrap();
}

fn publish_shared(s: &mut Machine, request: &str) {
    s.apply(
        &Command::SharedPublish {
            comment: "c".into(),
            request_id: request.into(),
            operator: String::new(),
            ts: 0,
        },
        2,
    )
    .unwrap();
}

fn share(s: &mut Machine, value: &str, request: &str) {
    draft_shared(s, "infra", "host", value);
    publish_shared(s, request);
}

fn bind(s: &mut Machine, item_key: Option<&str>, shared_group: &str, shared_key: &str) {
    s.apply(
        &Command::RefBind {
            project: "p".into(),
            binding: RefBinding {
                group: "g".into(),
                item_key: item_key.map(String::from),
                shared_group: shared_group.into(),
                shared_key: shared_key.into(),
            },
            operator: String::new(),
        },
        3,
    )
    .unwrap();
}

#[test]
fn shared_items_reach_their_references() {
    let mut s = with_project("p");
    share(&mut s, "one", "x1");
    bind(&mut s, Some("a"), "infra", "host");
    assert_eq!(s.list_refs(&"p".into()).unwrap().len(), 1);
    share(&mut s, "two", "x2");
    for branch in ["dev", "prod", "test"] {
        assert_eq!(text(&s, "p", branch, 0, "a"), Some("two".into()), "{branch}");
    }
    assert_eq!(s.get_shared("infra", "host").unwrap().unwrap().version, 2);
    assert!(s.list_shared_drafts().unwrap().is_empty());
    assert_eq!(s.list_shared_published().unwrap().len(), 1);
}

#[test]
fn all_drafts_reach_their_references() {
    let mut s = with_project("p");
    draft_shared(&mut s, "infra", "host", "h1");
    draft_shared(&mut s, "common", "b", "b1");
    publish_shared(&mut s, "x1");
    bind(&mut s, Some("a"), "infra", "host");
    bind(&mut s, None, "common", "b");
    draft_shared(&mut s, "infra", "host", "h2");
    draft_shared(&mut s, "common", "b", "b2");
    publish_shared(&mut s, "x2");
    for branch in ["dev", "prod", "test"] {
        assert_eq!(text(&s, "p", branch, 0, "a"), Some("h2".into()), "{branch}");
        assert_eq!(text(&s, "p", branch, 0, "b"), Some("b2".into()), "{branch}");
    }
    // Where two drafts lead to one item, the one that comes last stays.
    bind(&mut s, Some("b"), "infra", "host");
    draft_shared(&mut s, "infra", "host", "h3");
    draft_shared(&mut s, "common", "b", "b3");
    publish_shared(&mut s, "x3");
    for branch in ["dev", "prod", "test"] {
        assert_eq!(text(&s, "p", branch, 0, "a"), Some("h3".into()), "{branch}");
        assert_eq!(text(&s, "p", branch, 0, "b"), Some("h3".into()), "{branch}");
    }
}

#[test]
fn rebinding_forgets_the_old_item() {
    let mut s = with_project("p");
    draft_shared(&mut s, "infra", "host", "h1");
    draft_shared(&mut s, "infra", "port", "p1");
    publish_shared(&mut s, "x1");
    bind(&mut s, Some("a"), "infra", "host");
    bind(&mut s, Some("a"), "infra", "port");
    draft_shared(&mut s, "infra", "host", "h2");
    publish_shared(&mut s, "x2");
    for branch in ["dev", "prod", "test"] {
        let st = s.get_branch_state(&"p".into(), &branch.into()).unwrap().unwrap();
        assert_eq!(st.active_version, 1, "{branch}");
    }
    draft_shared(&mut s, "infra", "port", "p2");
    publish_shared(&mut s, "x3");
    assert_eq!(text(&s, "p", "dev", 0, "a"), Some("p2".into()));
    // A group that is bound anew follows the new shared group only.
    draft_shared(&mut s, "one", "b", "o1");
    draft_shared(&mut s, "two", "b", "t1");
    publish_shared(&mut s, "x4");
    bind(&mut s, None, "one", "b");
    bind(&mut s, None, "two", "b");
    let before = s.get_branch_state(&"p".into(), &"dev".into()).unwrap().unwrap().active_version;
    draft_shared(&mut s, "one", "b", "o2");
    publish_shared(&mut s, "x5");
    let after = s.get_branch_state(&"p".into(), &"dev".into()).unwrap().unwrap().active_version;
    assert_eq!(before, after);
}

#[test]
fn deleting_takes_names_that_begin_alike() {
    let mut s = with_project("order");
    create(&mut s, "order-service");
    structure(&mut s, "order-service", 1, &["a"]);
    draft(&mut s, "order-service", "dev", "a", "1");
    publish(&mut s, "order-service", "dev", "r1");
    s.apply(&Command::ProjectDelete { id: "order".into(), operator: String::new() }, 9).unwrap();
    assert!(s.get_project(&"order".into()).unwrap().is_none());
    assert!(s.get_project(&"order-service".into()).unwrap().is_none());
    let mut s = with_project("order-service");
    for name in ["gray", "gray2"] {
        s.apply(
            &Command::BranchCreate {
                project: "order-service".into(),
                name: name.into(),
                source: None,
                operator: String::new(),
                ts: 0,
            },
            10,
        )
        .unwrap();
    }
    draft(&mut s, "order-service", "gray2", "a", "2");
    publish(&mut s, "order-service", "gray2", "r2");
    s.apply(
        &Command::BranchDelete {
            project: "order-service".into(),
            name: "gray".into(),
            operator: String::new(),
        },
        11,
    )
    .unwrap();
    let left: Vec<String> =
        s.list_branches(&"order-service".into()).unwrap().into_iter().map(|b| b.0).collect();
    assert_eq!(left, vec!["dev", "prod", "test"]);
}

#[test]
fn names_may_end_in_a_hyphen() {
    assert!(valid_name("a-") && valid_branch("b-"));
    assert!(!valid_name("-a") && !valid_branch("-b"));
    assert!(!valid_name("") && !valid_name("A") && !valid_name("a_b"));
    assert!(valid_name(&"a".repeat(128)) && !valid_name(&"a".repeat(129)));
    assert!(valid_branch(&"a".repeat(64)) && !valid_branch(&"a".repeat(65)));
    let mut s = StateMachine::new(InMemoryStore::new());
    create(&mut s, "a-");
    assert!(s.get_project(&"a-".into()).unwrap().is_some());
}

#[test]
fn items_of_the_shared_library_are_read_only() {
    let mut s = StateMachine::new(InMemoryStore::new());
    create(&mut s, "p");
    let mut all = groups(&["a", "b"]);
    all[0].items[0].shared_ref = Some("host".into());
    s.apply(
        &Command::StructureDraftSet {
            project: "p".into(),
            base_version: 1,
            groups: all,
            operator: String::new(),
        },
        2,
    )
    .unwrap();
    s.apply(
        &Command::PublishStructure {
            project: "p".into(),
            comment: "s".into(),
            request_id: "s1".into(),
            operator: String::new(),
            ts: 0,
        },
        3,
    )
    .unwrap();
    let update = |key: &str| Command::DraftUpdate {
        project: "p".into(),
        branch: "dev".into(),
        updates: vec![DraftUpdateItem {
            group: "g".into(),
            key: key.into(),
            value: Value::String("v".into()),
        }],
        deletes: vec![],
        operator: String::new(),
        ts: 0,
    };
    let e = s.apply(&update("a"), 4).unwrap_err();
    assert_eq!((e.kind, e.message.as_str()), (ErrorKind::Validation, "read-only item g/a"));
    s.apply(&update("b"), 5).unwrap();
}

#[test]
fn descriptions_have_a_limit() {
    let mut s = with_project("p");
    let set = |length: usize| {
        let mut all = groups(&["a"]);
        all[0].items[0].description = Some("d".repeat(length));
        Command::StructureDraftSet {
            project: "p".into(),
            base_version: 2,
            groups: all,
            operator: String::new(),
        }
    };
    assert_eq!(s.apply(&set(201), 1).unwrap_err().kind, ErrorKind::PublishBlocked);
    s.apply(&set(200), 2).unwrap();
    let shared = |length: usize| Command::SharedDraftUpdate {
        item: SharedItem {
            group: "infra".into(),
            key: "host".into(),
            ty: ValueType::String,
            secret: false,
            required: false,
            value: Value::String("v".into()),
            version: 0,
            description: Some("d".repeat(length)),
        },
        operator: String::new(),
    };
    assert_eq!(s.apply(&shared(201), 3).unwrap_err().kind, ErrorKind::Validation);
    s.apply(&shared(200), 4).unwrap();
}

#[test]
fn a_refused_step_leaves_what_is_read() {
    let mut s = with_project("p");
    draft(&mut s, "p", "dev", "a", "1");
    publish(&mut s, "p", "dev", "r1");
    let dev: BranchName = "dev".into();
    let before = s.get_branch_state(&"p".into(), &dev).unwrap();
    assert!(s.apply_rollback(&"p".into(), &dev, 5, "c", "r2", 9, "").is_err());
    let unknown = vec![DraftUpdateItem {
        group: "g".into(),
        key: "nope".into(),
        value: Value::String("v".into()),
    }];
    assert!(s.apply_draft_update(&"p".into(), &dev, &unknown, &vec![], 9, "").is_err());
    assert_eq!(s.get_branch_state(&"p".into(), &dev).unwrap(), before);
}

#[test]
fn pruning_keeps_what_is_recent() {
    let mut s = with_project("p");
    for i in 0..205 {
        draft(&mut s, "p", "dev", "a", &i.to_string());
        publish(&mut s, "p", "dev", &format!("r{i}"));
    }
    let before: Vec<Option<String>> = (200..=206).map(|v| text(&s, "p", "dev", v, "a")).collect();
    s.prune_versions(&"p".into(), &"dev".into(), 3).unwrap();
    let after: Vec<Option<String>> = (200..=206).map(|v| text(&s, "p", "dev", v, "a")).collect();
    assert_eq!(before, after);
    let left: Vec<u64> =
        s.version_history(&"p".into(), &"dev".into()).unwrap().iter().map(|r| r.no).collect();
    assert_eq!(left, vec![200, 204, 205, 206]);
    assert_eq!(
        s.get_config(&"p".into(), &"dev".into(), 7).unwrap_err().kind,
        ErrorKind::NotFound
    );
}

#[test]
fn a_dump_restores_the_state() {
    let mut s = with_project("p");
    draft(&mut s, "p", "dev", "a", "1");
    publish(&mut s, "p", "dev", "r1");
    let dump = s.dump_all().unwrap();
    let mut t: Machine = StateMachine::new(InMemoryStore::new());
    create(&mut t, "other");
    t.restore_all(&dump).unwrap();
    assert_eq!(t.dump_all().unwrap(), dump);
    assert_eq!(text(&t, "p", "dev", 0, "a"), Some("1".into()));
    assert!(t.get_project(&"other".into()).unwrap().is_none());
}

fn note(s: &mut Machine, action: &str, project: Option<&str>) {
    s.apply(
        &Command::AuditAppend {
            entry: AuditEntry {
                seq: 99,
                ts: 1,
                operator: "admin".into(),
                action: action.into(),
                project: project.map(String::from),
                branch: None,
                version: None,
                request_id: None,
                detail: "{}".into(),
            },
        },
        1,
    )
    .unwrap();
}

#[test]
fn the_trail_only_grows() {
    let mut s = with_project("p");
    note(&mut s, "one", Some("p"));
    note(&mut s, "two", None);
    let before = s.get_audit(None, None, None, 10).unwrap();
    s.apply(&Command::ProjectDelete { id: "p".into(), operator: String::new() }, 9).unwrap();
    assert_eq!(s.get_audit(None, None, None, 10).unwrap(), before);
    note(&mut s, "three", None);
    let after = s.get_audit(None, None, None, 10).unwrap();
    assert_eq!(after[1..], before[..]);
    assert_eq!(after.iter().map(|e| e.seq).collect::<Vec<_>>(), vec![3, 2, 1]);
    assert_eq!(s.get_audit(None, Some("p"), None, 10).unwrap().len(), 1);
}

#[test]
fn one_admin_at_a_time() {
    let mut s: Machine = StateMachine::new(InMemoryStore::new());
    let login = |t: &str| Command::SessionLogin { token_hash: t.into(), issued_at: 1, expires_at: None };
    s.apply(&login("a"), 1).unwrap();
    let e = s.apply(&login("b"), 2).unwrap_err();
    assert_eq!((e.kind, e.message.as_str()), (ErrorKind::SessionInUse, "已有管理员在线"));
    s.apply(&Command::SessionLogout, 3).unwrap();
    s.apply(&login("b"), 4).unwrap();
    assert_eq!(s.get_session().unwrap().unwrap().token_hash, "b");
}

#[test]
fn accounts_of_projects() {
    let mut s = with_project("p");
    let account = |name: &str, project: &str| Command::ProjectAdminCreate {
        project: project.into(),
        username: name.into(),
        salt: "s".into(),
        password_hash: "h".into(),
        ts: 0,
    };
    s.apply(&account("bob", "p"), 1).unwrap();
    assert_eq!(s.apply(&account("bob", "p"), 1).unwrap_err().kind, ErrorKind::Conflict);
    assert_eq!(s.apply(&account("admin", "p"), 1).unwrap_err().kind, ErrorKind::Validation);
    assert_eq!(s.apply(&account("eve", "none"), 1).unwrap_err().kind, ErrorKind::NotFound);
    let login = |sid: &str| Command::MultiPaSessionLogin {
        username: "bob".into(),
        token_hash: "t".into(),
        issued_at: 1,
        expires_at: None,
        device_id: "cli".into(),
        session_id: sid.into(),
    };
    s.apply(&login("x"), 2).unwrap();
    s.apply(
        &Command::ProjectAdminSetPassword {
            username: "bob".into(),
            salt: "s2".into(),
            password_hash: "h2".into(),
        },
        3,
    )
    .unwrap();
    assert!(s.get_pa_session_with("bob", "x").unwrap().is_none());
    assert_eq!(s.get_project_admin("bob").unwrap().unwrap().password_hash, "h2");
    assert_eq!(s.list_project_admins("p").unwrap().len(), 1);
    // The account and its sessions go with the project.
    s.apply(&login("y"), 4).unwrap();
    s.apply(&Command::ProjectDelete { id: "p".into(), operator: String::new() }, 5).unwrap();
    assert!(s.get_project_admin("bob").unwrap().is_none());
    assert!(s.get_pa_session_with("bob", "y").unwrap().is_none());
}

#[test]
fn deleting_a_project_spares_others() {
    let mut s = with_project("order");
    create(&mut s, "billing");
    structure(&mut s, "billing", 1, &["a"]);
    create(&mut s, "order-service");
    draft(&mut s, "billing", "dev", "a", "1");
    publish(&mut s, "billing", "dev", "r1");
    s.apply(&Command::ProjectDelete { id: "order".into(), operator: String::new() }, 9).unwrap();
    assert_eq!(text(&s, "billing", "dev", 0, "a"), Some("1".into()));
    let rows = s.dump_all().unwrap();
    assert!(rows.iter().all(|(k, _)| !k.starts_with("p/order")));
}

#[test]
fn limits_and_refusals() {
    let mut s = with_project("p");
    let err = |s: &mut Machine, c: Command| s.apply(&c, 1).unwrap_err().kind;
    let project = |name: &str| Command::ProjectCreate { name: name.into(), operator: String::new(), ts: 0 };
    assert_eq!(err(&mut s, project("Bad Name")), ErrorKind::Validation);
    assert_eq!(
        err(&mut s, Command::ProjectDelete { id: "none".into(), operator: String::new() }),
        ErrorKind::NotFound
    );
    let branch = |name: &str, source: Option<&str>| Command::BranchCreate {
        project: "p".into(),
        name: name.into(),
        source: source.map(BranchName::from),
        operator: String::new(),
        ts: 0,
    };
    assert_eq!(err(&mut s, branch("dev", None)), ErrorKind::Conflict);
    assert_eq!(err(&mut s, branch("-x", None)), ErrorKind::Validation);
    assert_eq!(err(&mut s, branch("x", Some("none"))), ErrorKind::Validation);
    s.apply(&branch("fresh", None), 1).unwrap();
    s.apply(
        &Command::BranchDelete { project: "p".into(), name: "fresh".into(), operator: String::new() },
        2,
    )
    .unwrap();
    assert!(s.get_branch_state(&"p".into(), &"fresh".into()).unwrap().is_none());
    assert_eq!(
        err(&mut s, Command::SharedPublish {
            comment: "c".into(),
            request_id: "r".into(),
            operator: String::new(),
            ts: 0,
        }),
        ErrorKind::NoDraft
    );
    assert_eq!(
        s.get_config(&ProjectId("none".into()), &"dev".into(), 0).unwrap_err().kind,
        ErrorKind::NotFound
    );
    let rows = s.dump_all().unwrap();
    assert!(rows.iter().any(|(_, e)| matches!(e, Entry::Project(_))));
}

#[test]
fn pruning_counts_what_goes() {
    let mut s = with_project("p");
    for i in 0..6 {
        draft(&mut s, "p", "dev", "a", &i.to_string());
        publish(&mut s, "p", "dev", &format!("r{i}"));
        draft(&mut s, "p", "test", "a", &i.to_string());
        publish(&mut s, "p", "test", &format!("t{i}"));
    }
    let history = |s: &Machine, b: &str| s.version_history(&"p".into(), &b.into()).unwrap();
    let (dev, test) = (history(&s, "dev"), history(&s, "test"));
    let gone = s.prune_versions(&"p".into(), &"dev".into(), 2).unwrap();
    assert!(gone > 0);
    assert_eq!(history(&s, "dev").len() as u64 + gone as u64, dev.len() as u64);
    assert_eq!(history(&s, "test"), test);
    assert_eq!(s.prune_versions(&"p".into(), &"dev".into(), 2).unwrap(), 0);
}

#[test]
fn audit_keys_keep_order_and_length() {
    let numbers = [0u64, 9, 10, 99, 100, 4_294_967_296, u64::MAX];
    for pair in numbers.windows(2) {
        let (a, b) = (audit_key(pair[0]), audit_key(pair[1]));
        assert!(a < b);
        assert_eq!(a.len(), b.len());
    }
}

fn sealed(dek_v: u64) -> Value {
    Value::Secret(Ciphertext {
        enc: "aes-256-gcm".into(),
        v: 1,
        dek_v,
        nonce: "n".into(),
        ct: "c".into(),
        edek: "e".into(),
        edek_nonce: "en".into(),
    })
}

fn second_key(c: &Ciphertext) -> Option<Result<Ciphertext, Error>> {
    if c.dek_v >= 2 {
        None
    } else {
        let mut n = c.clone();
        n.dek_v = 2;
        Some(Ok(n))
    }
}

#[test]
fn a_second_rewrap_writes_nothing() {
    let mut s = with_project("p");
    for key in ["snap", "diff", "draft"] {
        s.apply(
            &Command::SharedDraftUpdate {
                item: SharedItem {
                    group: "x".into(),
                    key: key.into(),
                    ty: ValueType::Secret,
                    secret: true,
                    required: false,
                    value: sealed(1),
                    version: 0,
                    description: None,
                },
                operator: String::new(),
            },
            2,
        )
        .unwrap();
    }
    assert_eq!(s.rewrap_deks(&second_key).unwrap(), 3);
    assert!(s.list_shared_drafts().unwrap().iter().all(|i| i.value == sealed(2)));
    let dump = s.dump_all().unwrap();
    assert_eq!(s.rewrap_deks(&second_key).unwrap(), 0);
    assert_eq!(s.dump_all().unwrap(), dump);
}

#[test]
fn projects_are_listed_in_order() {
    let mut s = with_project("m");
    for name in ["z", "a-", "a", "ab"] {
        create(&mut s, name);
    }
    let names: Vec<String> = s.list_projects().unwrap().iter().map(|p| p.name.clone()).collect();
    assert_eq!(names, vec!["a", "a-", "ab", "m", "z"]);
}

#[test]
fn deleting_a_branch_spares_others() {
    let mut s = with_project("p");
    for name in ["gray", "agray"] {
        s.apply(
            &Command::BranchCreate {
                project: "p".into(),
                name: name.into(),
                source: None,
                operator: String::new(),
                ts: 0,
            },
            6,
        )
        .unwrap();
    }
    draft(&mut s, "p", "agray", "a", "1");
    publish(&mut s, "p", "agray", "r1");
    s.apply(
        &Command::BranchDelete { project: "p".into(), name: "gray".into(), operator: String::new() },
        7,
    )
    .unwrap();
    assert!(s.get_branch_state(&"p".into(), &"gray".into()).unwrap().is_none());
    assert_eq!(text(&s, "p", "agray", 0, "a"), Some("1".into()));
}

#[test]
fn one_save_refuses_the_other() {
    let mut s = with_project("p");
    let (id, dev): (ProjectId, BranchName) = ("p".into(), "dev".into());
    let rev = s.get_branch_state(&id, &dev).unwrap().unwrap().draft_rev;
    assert!(check_draft_rev(&s, &id, &dev, Some(rev)).is_ok());
    draft(&mut s, "p", "dev", "a", "1");
    let e = check_draft_rev(&s, &id, &dev, Some(rev)).unwrap_err();
    assert_eq!(e.kind, ErrorKind::Conflict);
    assert_eq!(e.message, format!("draft revision is {}, not {rev}", rev + 1));
    assert!(check_draft_rev(&s, &id, &dev, Some(rev + 1)).is_ok());
    assert!(check_draft_rev(&s, &id, &dev, None).is_ok());
    assert!(check_draft_rev(&s, &id, &"nowhere".into(), Some(7)).is_ok());
}

#[test]
fn pruning_keeps_the_newest() {
    let mut s = with_project("p");
    for i in 0..9 {
        draft(&mut s, "p", "dev", "a", &i.to_string());
        publish(&mut s, "p", "dev", &format!("r{i}"));
    }
    let before = s.version_history(&"p".into(), &"dev".into()).unwrap();
    assert!(before.windows(2).all(|w| w[0].no < w[1].no));
    let newest = before[before.len() - 4..].to_vec();
    let read: Vec<Option<String>> = newest.iter().map(|r| text(&s, "p", "dev", r.no, "a")).collect();
    s.prune_versions(&"p".into(), &"dev".into(), 4).unwrap();
    let after = s.version_history(&"p".into(), &"dev".into()).unwrap();
    assert!(newest.iter().all(|r| after.contains(r)));
    let again: Vec<Option<String>> = newest.iter().map(|r| text(&s, "p", "dev", r.no, "a")).collect();
    assert_eq!(read, again);
    assert_eq!(read, ["5", "6", "7", "8"].map(|t| Some(t.to_string())));
}

#[test]
fn the_audit_trail_is_read_newest_first() {
    let mut s = with_project("p");
    for i in 0..12 {
        note(&mut s, if i % 3 == 0 { "x" } else { "y" }, None);
    }
    let all: Vec<u64> = s.get_audit(None, None, None, 100).unwrap().iter().map(|e| e.seq).collect();
    assert_eq!(all, (1..=12).rev().collect::<Vec<u64>>());
    let some: Vec<u64> =
        s.get_audit(Some("x"), None, None, 3).unwrap().iter().map(|e| e.seq).collect();
    assert_eq!(some, vec![10, 7, 4]);
}
