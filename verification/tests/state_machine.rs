//! The state machine, command by command.
use defing::command::{Command, DraftUpdateItem};
use defing::error::{Error, ErrorKind};
use defing::limits::MAX_VALUE_BYTES;
use defing::model::{
    AuditEntry, BranchName, Ciphertext, Entry, EventType, GroupDef, ItemDef, ProjectId, RefBinding,
    SharedItem, Value, ValueType, VersionKind,
};
use defing::state::StateMachine;
use defing::store::InMemoryStore;
use defing::token::token_hash;

type Machine = StateMachine<InMemoryStore>;

fn sm() -> Machine {
    StateMachine::new(InMemoryStore::new())
}

fn redis_structure() -> Vec<GroupDef> {
    vec![GroupDef {
        name: "redis".into(),
        items: vec![
            ItemDef {
                key: "host".into(),
                ty: ValueType::String,
                required: true,
                secret: false,
                validate: None,
description: None,
shared_ref: None,
            },
            ItemDef {
                key: "port".into(),
                ty: ValueType::Int,
                required: false,
                secret: false,
                validate: None,
description: None,
shared_ref: None,
            },
            ItemDef {
                key: "password".into(),
                ty: ValueType::Secret,
                required: false,
                secret: true,
                validate: None,
description: None,
shared_ref: None,
            },
        ],
    }]
}

fn setup(s: &mut Machine) -> (ProjectId, Vec<BranchName>) {
    assert!(s
        .apply(
            &Command::ProjectCreate {
                name: "order-service".into(),
                operator: String::new(),
                ts: 0,
            },
            1
        )
        .is_ok());
    let pid: ProjectId = "order-service".into();
    let branches = s.list_branches(&pid).unwrap();
    assert_eq!(branches.len(), 3);
    assert!(s
        .apply(
            &Command::StructureDraftSet {
                project: pid.clone(),
                base_version: 1,
                groups: redis_structure(),
                operator: String::new(),
            },
            2,
        )
        .is_ok());
    let events = s
        .apply(
            &Command::PublishStructure {
                project: pid.clone(),
                comment: "init".into(),
                request_id: "s1".into(),
                operator: String::new(),
                ts: 0,
            },
            3,
        )
        .unwrap();
    assert_eq!(events.len(), 3);
    (pid, branches)
}

#[test]
fn full_flow_dev_publish() {
    let mut s = sm();
    let (pid, branches) = setup(&mut s);
    assert!(s
        .apply(
            &Command::DraftUpdate {
                project: pid.clone(),
                branch: BranchName("dev".into()),
                updates: vec![
                    DraftUpdateItem {
                        group: "redis".into(),
                        key: "host".into(),
                        value: Value::String("127.0.0.1".into())
                    },
                    DraftUpdateItem {
                        group: "redis".into(),
                        key: "port".into(),
                        value: Value::Int(6379)
                    },
                ],
                deletes: vec![],
                operator: String::new(),
                ts: 0,
            },
            4,
        )
        .is_ok());
    let before = s.get_config(&pid, &BranchName("dev".into()), 0).unwrap();
    assert_eq!(before.version, 1);
    assert!(before.groups.is_empty());
    let events = s
        .apply(
            &Command::Publish {
                project: pid.clone(),
                branch: BranchName("dev".into()),
                comment: "dev host".into(),
                request_id: "r1".into(),
                operator: String::new(),
                ts: 0,
            },
            5,
        )
        .unwrap();
    assert_eq!(events.len(), 1);
    assert_eq!(events[0].ty, EventType::ValuePublish);
    assert_eq!(events[0].version, 2);
    let after = s.get_config(&pid, &BranchName("dev".into()), 0).unwrap();
    assert_eq!(after.version, 2);
    assert_eq!(
        *after.groups.get("redis").unwrap().get("host").unwrap(),
        Value::String("127.0.0.1".into())
    );
    assert_eq!(*after.groups.get("redis").unwrap().get("port").unwrap(), Value::Int(6379));
    let test = s.get_config(&pid, &BranchName("test".into()), 0).unwrap();
    assert_eq!(test.version, 1);
    assert!(test.groups.is_empty());
    assert_eq!(branches.len(), 3);
}

#[test]
fn publish_is_idempotent_by_request_id() {
    let mut s = sm();
    let (pid, _) = setup(&mut s);
    let b = BranchName("dev".into());
    s.apply(
        &Command::DraftUpdate {
            project: pid.clone(),
            branch: b.clone(),
            updates: vec![DraftUpdateItem {
                group: "redis".into(),
                key: "host".into(),
                value: Value::String("x".into()),
            }],
            deletes: vec![],
            operator: String::new(),
            ts: 0,
        },
        4,
    )
    .unwrap();
    let cmd = Command::Publish {
        project: pid.clone(),
        branch: b.clone(),
        comment: "c".into(),
        request_id: "r9".into(),
        operator: String::new(),
        ts: 0,
    };
    let first = s.apply(&cmd, 5).unwrap();
    assert_eq!(first.len(), 1);
    let second = s.apply(&cmd, 6).unwrap();
    assert!(second.is_empty());
    let snap = s.get_config(&pid, &b, 0).unwrap();
    assert_eq!(snap.version, 2);
}

#[test]
fn required_unset_blocks_publish() {
    let mut s = sm();
    let (pid, _) = setup(&mut s);
    let b = BranchName("dev".into());
    s.apply(
        &Command::DraftUpdate {
            project: pid.clone(),
            branch: b.clone(),
            updates: vec![DraftUpdateItem {
                group: "redis".into(),
                key: "port".into(),
                value: Value::Int(6379),
            }],
            deletes: vec![],
            operator: String::new(),
            ts: 0,
        },
        4,
    )
    .unwrap();
    let err = s
        .apply(
            &Command::Publish {
                project: pid.clone(),
                branch: b.clone(),
                comment: "c".into(),
                request_id: "r2".into(),
                operator: String::new(),
                ts: 0,
            },
            5,
        )
        .unwrap_err();
    assert_eq!(err.kind, ErrorKind::PublishBlocked);
    assert_eq!(s.get_config(&pid, &b, 0).unwrap().version, 1);
}

#[test]
fn no_draft_publish_errors() {
    let mut s = sm();
    let (pid, _) = setup(&mut s);
    let err = s
        .apply(
            &Command::Publish {
                project: pid.clone(),
                branch: BranchName("test".into()),
                comment: "c".into(),
                request_id: "r3".into(),
                operator: String::new(),
                ts: 0,
            },
            5,
        )
        .unwrap_err();
    assert_eq!(err.kind, ErrorKind::NoDraft);
}

#[test]
fn branch_inherits_structure_and_values() {
    let mut s = sm();
    let (pid, _) = setup(&mut s);
    s.apply(
        &Command::DraftUpdate {
            project: pid.clone(),
            branch: BranchName("dev".into()),
            updates: vec![DraftUpdateItem {
                group: "redis".into(),
                key: "host".into(),
                value: Value::String("10.0.0.1".into()),
            }],
            deletes: vec![],
            operator: String::new(),
            ts: 0,
        },
        4,
    )
    .unwrap();
    s.apply(
        &Command::Publish {
            project: pid.clone(),
            branch: BranchName("dev".into()),
            comment: "c".into(),
            request_id: "r4".into(),
            operator: String::new(),
            ts: 0,
        },
        5,
    )
    .unwrap();
    assert!(s
        .apply(
            &Command::BranchCreate {
                project: pid.clone(),
                name: "gray".into(),
                source: Some(BranchName("dev".into())),
                operator: String::new(),
                ts: 0,
            },
            6
        )
        .is_ok());
    let st = s
        .get_branch_state(&pid, &BranchName("gray".into()))
        .unwrap()
        .unwrap();
    assert_eq!(st.structure_version, 2);
    assert_eq!(
        st.value_draft.get("redis").unwrap().get("host").unwrap().value,
        Value::String("10.0.0.1".into())
    );
}

#[test]
fn draft_update_validates_unknown_item_and_type() {
    let mut s = sm();
    let (pid, _) = setup(&mut s);
    let err = s
        .apply(
            &Command::DraftUpdate {
                project: pid.clone(),
                branch: BranchName("dev".into()),
                updates: vec![DraftUpdateItem {
                    group: "redis".into(),
                    key: "nope".into(),
                    value: Value::String("x".into()),
                }],
                deletes: vec![],
                operator: String::new(),
                ts: 0,
            },
            4,
        )
        .unwrap_err();
    assert_eq!(err.kind, ErrorKind::Validation);
    let err = s
        .apply(
            &Command::DraftUpdate {
                project: pid.clone(),
                branch: BranchName("dev".into()),
                updates: vec![DraftUpdateItem {
                    group: "redis".into(),
                    key: "port".into(),
                    value: Value::String("abc".into()),
                }],
                deletes: vec![],
                operator: String::new(),
                ts: 0,
            },
            4,
        )
        .unwrap_err();
    assert_eq!(err.kind, ErrorKind::Validation);
}

#[test]
fn duplicate_project_conflicts() {
    let mut s = sm();
    s.apply(
        &Command::ProjectCreate {
            name: "p1".into(),
            operator: String::new(),
            ts: 0,
        },
        1,
    )
    .unwrap();
    let err = s
        .apply(
            &Command::ProjectCreate {
                name: "p1".into(),
                operator: String::new(),
                ts: 0,
            },
            2,
        )
        .unwrap_err();
    assert_eq!(err.kind, ErrorKind::Conflict);
}

#[test]
fn project_delete_removes_everything() {
    let mut s = sm();
    let (pid, _) = setup(&mut s);
    s.apply(
        &Command::ProjectDelete {
            id: pid.clone(),
            operator: String::new(),
        },
        10,
    )
    .unwrap();
    assert!(s.get_project(&pid).unwrap().is_none());
    assert!(s.list_projects().unwrap().is_empty());
    assert!(s.list_branches(&pid).unwrap().is_empty());
    assert!(s.get_structure(&pid).unwrap().is_none());
}

#[test]
fn branch_delete_guards_published() {
    let mut s = sm();
    let (pid, _) = setup(&mut s);
    let err = s
        .apply(
            &Command::BranchDelete {
                project: pid.clone(),
                name: BranchName("test".into()),
                operator: String::new(),
            },
            5,
        )
        .unwrap_err();
    assert_eq!(err.kind, ErrorKind::Conflict);
}

#[test]
fn rollback_creates_new_version_with_old_content() {
    let mut s = sm();
    let (pid, _) = setup(&mut s);
    let b = BranchName("dev".into());
    s.apply(
        &Command::DraftUpdate {
            project: pid.clone(),
            branch: b.clone(),
            updates: vec![DraftUpdateItem {
                group: "redis".into(),
                key: "host".into(),
                value: Value::String("10.0.0.9".into()),
            }],
            deletes: vec![],
            operator: String::new(),
            ts: 0,
        },
        4,
    )
    .unwrap();
    s.apply(
        &Command::Publish {
            project: pid.clone(),
            branch: b.clone(),
            comment: "v2".into(),
            request_id: "r1".into(),
            operator: String::new(),
            ts: 0,
        },
        5,
    )
    .unwrap();
    assert_eq!(s.get_config(&pid, &b, 0).unwrap().version, 2);
    let events = s
        .apply(
            &Command::Rollback {
                project: pid.clone(),
                branch: b.clone(),
                to_version: 1,
                comment: "rollback".into(),
                request_id: "rb1".into(),
                operator: String::new(),
                ts: 0,
            },
            6,
        )
        .unwrap();
    assert_eq!(events.len(), 1);
    assert_eq!(events[0].ty, EventType::Rollback);
    assert_eq!(events[0].version, 3);
    let snap = s.get_config(&pid, &b, 0).unwrap();
    assert_eq!(snap.version, 3);
    assert!(snap.groups.is_empty());
    let rec = s.get_version_record(&pid, &b, 3).unwrap().unwrap();
    assert_eq!(rec.rollback_of, Some(1));
    let again = s
        .apply(
            &Command::Rollback {
                project: pid.clone(),
                branch: b.clone(),
                to_version: 1,
                comment: "x".into(),
                request_id: "rb1".into(),
                operator: String::new(),
                ts: 0,
            },
            7,
        )
        .unwrap();
    assert!(again.is_empty());
    assert_eq!(s.get_config(&pid, &b, 0).unwrap().version, 3);
}

#[test]
fn rollback_invalid_version_rejected() {
    let mut s = sm();
    let (pid, _) = setup(&mut s);
    let b = BranchName("dev".into());
    let err = s
        .apply(
            &Command::Rollback {
                project: pid.clone(),
                branch: b.clone(),
                to_version: 1,
                comment: "x".into(),
                request_id: "r".into(),
                operator: String::new(),
                ts: 0,
            },
            5,
        )
        .unwrap_err();
    assert_eq!(err.kind, ErrorKind::Validation);
    let err = s
        .apply(
            &Command::Rollback {
                project: pid.clone(),
                branch: b.clone(),
                to_version: 99,
                comment: "x".into(),
                request_id: "r".into(),
                operator: String::new(),
                ts: 0,
            },
            5,
        )
        .unwrap_err();
    assert_eq!(err.kind, ErrorKind::Validation);
}

fn publish_shared(s: &mut Machine, group: &str, key: &str, value: Value, request_id: &str) {
    s.apply(
        &Command::SharedDraftUpdate {
            item: SharedItem {
                group: group.into(),
                key: key.into(),
                ty: value.value_type(),
                secret: false,
                required: false,
                value,
                version: 0,
                description: None,
            },
            operator: String::new(),
        },
        10,
    )
    .unwrap();
    s.apply(
        &Command::SharedPublish {
            comment: "shared".into(),
            request_id: request_id.into(),
            operator: String::new(),
            ts: 0,
        },
        11,
    )
    .unwrap();
}

#[test]
fn shared_cascade_updates_referencing_branches() {
    let mut s = sm();
    publish_shared(
        &mut s,
        "infra",
        "db_host",
        Value::String("db.internal".into()),
        "sp1",
    );
    let (pid, _) = setup(&mut s);
    s.apply(
        &Command::StructureDraftSet {
            project: pid.clone(),
            base_version: 2,
            groups: vec![
                GroupDef {
                    name: "redis".into(),
                    items: vec![
                        ItemDef {
                            key: "host".into(),
                            ty: ValueType::String,
                            required: true,
                            secret: false,
                            validate: None,
description: None,
shared_ref: None,
                        },
                        ItemDef {
                            key: "port".into(),
                            ty: ValueType::Int,
                            required: false,
                            secret: false,
                            validate: None,
description: None,
shared_ref: None,
                        },
                        ItemDef {
                            key: "password".into(),
                            ty: ValueType::Secret,
                            required: false,
                            secret: true,
                            validate: None,
description: None,
shared_ref: None,
                        },
                    ],
                },
                GroupDef {
                    name: "db".into(),
                    items: vec![ItemDef {
                        key: "host".into(),
                        ty: ValueType::String,
                        required: false,
                        secret: false,
                        validate: None,
description: None,
shared_ref: None,
                    }],
                },
            ],
            operator: String::new(),
        },
        12,
    )
    .unwrap();
    s.apply(
        &Command::PublishStructure {
            project: pid.clone(),
            comment: "add db".into(),
            request_id: "s2".into(),
            operator: String::new(),
            ts: 0,
        },
        13,
    )
    .unwrap();
    s.apply(
        &Command::RefBind {
            project: pid.clone(),
            binding: RefBinding {
                group: "db".into(),
                item_key: Some("host".into()),
                shared_group: "infra".into(),
                shared_key: "db_host".into(),
            },
            operator: String::new(),
        },
        14,
    )
    .unwrap();
    s.apply(
        &Command::DraftUpdate {
            project: pid.clone(),
            branch: BranchName("dev".into()),
            updates: vec![DraftUpdateItem {
                group: "redis".into(),
                key: "host".into(),
                value: Value::String("127.0.0.1".into()),
            }],
            deletes: vec![],
            operator: String::new(),
            ts: 0,
        },
        15,
    )
    .unwrap();
    let before = s
        .get_branch_state(&pid, &BranchName("dev".into()))
        .unwrap()
        .unwrap()
        .active_version;
    s.apply(
        &Command::Publish {
            project: pid.clone(),
            branch: BranchName("dev".into()),
            comment: "dev".into(),
            request_id: "r1".into(),
            operator: String::new(),
            ts: 0,
        },
        16,
    )
    .unwrap();
    let dev_ver = s.get_config(&pid, &BranchName("dev".into()), 0).unwrap();
    assert_eq!(
        *dev_ver.groups.get("db").unwrap().get("host").unwrap(),
        Value::String("db.internal".into())
    );
    let after_publish_ver = s
        .get_branch_state(&pid, &BranchName("dev".into()))
        .unwrap()
        .unwrap()
        .active_version;
    assert!(after_publish_ver > before);
    publish_shared(
        &mut s,
        "infra",
        "db_host",
        Value::String("db.internal.2".into()),
        "sp2",
    );
    let dev_after = s.get_config(&pid, &BranchName("dev".into()), 0).unwrap();
    assert_eq!(
        *dev_after.groups.get("db").unwrap().get("host").unwrap(),
        Value::String("db.internal.2".into())
    );
    let hist = s.version_history(&pid, &BranchName("dev".into())).unwrap();
    assert!(hist.len() >= 3);
}

#[test]
fn ref_requires_published_shared() {
    let mut s = sm();
    let (pid, _) = setup(&mut s);
    let err = s
        .apply(
            &Command::RefBind {
                project: pid.clone(),
                binding: RefBinding {
                    group: "redis".into(),
                    item_key: Some("host".into()),
                    shared_group: "infra".into(),
                    shared_key: "nope".into(),
                },
                operator: String::new(),
            },
            12,
        )
        .unwrap_err();
    assert_eq!(err.kind, ErrorKind::Validation);
}

#[test]
fn session_login_logout_heartbeat() {
    let mut s = sm();
    let token = "tok-abc123";
    let hash = token_hash(token);
    s.apply(
        &Command::SessionLogin {
            token_hash: hash.clone(),
            issued_at: 1000,
            expires_at: Some(1000 + 86_400_000),
        },
        1,
    )
    .unwrap();
    let sess = s.get_session().unwrap().expect("session exists");
    assert_eq!(sess.token_hash, hash);
    assert_ne!(sess.token_hash, token);
    assert_eq!(sess.expires_at, Some(1000 + 86_400_000));
    let err = s
        .apply(
            &Command::SessionLogin {
                token_hash: token_hash("tok-other"),
                issued_at: 2000,
                expires_at: None,
            },
            2,
        )
        .unwrap_err();
    assert_eq!(err.kind, ErrorKind::SessionInUse);
    s.apply(
        &Command::SessionHeartbeat {
            expires_at: Some(3000),
        },
        3,
    )
    .unwrap();
    assert_eq!(s.get_session().unwrap().unwrap().expires_at, Some(3000));
    s.apply(&Command::SessionLogout, 4).unwrap();
    assert!(s.get_session().unwrap().is_none());
    assert!(s.apply(&Command::SessionLogout, 5).is_ok());
}

#[test]
fn session_heartbeat_without_login_expired() {
    let mut s = sm();
    let err = s
        .apply(&Command::SessionHeartbeat { expires_at: None }, 1)
        .unwrap_err();
    assert_eq!(err.kind, ErrorKind::SessionExpired);
}

#[test]
fn session_token_hash_is_deterministic_and_distinct() {
    assert_eq!(token_hash("abc"), token_hash("abc"));
    assert_ne!(token_hash("abc"), token_hash("abd"));
    assert_eq!(token_hash("abc").len(), 64);
}

fn audit_cmd(action: &str, ts: i64) -> Command {
    Command::AuditAppend {
        entry: AuditEntry {
            seq: 0,
            ts,
            operator: "admin".into(),
            action: action.into(),
            project: Some("order-service".into()),
            branch: Some("dev".into()),
            version: Some(3),
            request_id: Some("r-1".into()),
            detail: "{\"n\":1}".into(),
        },
    }
}

#[test]
fn audit_append_seq_monotonic_and_queryable() {
    let mut s = sm();
    s.apply(&audit_cmd("publish", 1000), 1).unwrap();
    s.apply(&audit_cmd("rollback", 2000), 2).unwrap();
    s.apply(&audit_cmd("publish", 3000), 3).unwrap();
    let all = s.get_audit(None, None, None, 100).unwrap();
    assert_eq!(all.len(), 3);
    assert_eq!(all[0].seq, 3);
    assert_eq!(all[0].action, "publish");
    assert_eq!(all[2].seq, 1);
    let pubs = s.get_audit(Some("publish"), None, None, 100).unwrap();
    assert_eq!(pubs.len(), 2);
    assert!(pubs.iter().all(|e| e.action == "publish"));
    let recent = s.get_audit(None, None, Some(1500), 100).unwrap();
    assert_eq!(recent.len(), 2);
    let limited = s.get_audit(None, None, None, 2).unwrap();
    assert_eq!(limited.len(), 2);
    assert_eq!(limited[0].seq, 3);
}

#[test]
fn audit_persists_and_prunes() {
    let mut s = sm();
    for i in 0..5 {
        s.apply(&audit_cmd("publish", 1000 + i), 10 + i).unwrap();
    }
    let removed = s.prune_audit(2).unwrap();
    assert_eq!(removed, 3);
    let all = s.get_audit(None, None, None, 100).unwrap();
    assert_eq!(all.len(), 2);
    assert_eq!(all[0].seq, 5);
    assert_eq!(all[1].seq, 4);
    assert_eq!(s.prune_audit(2).unwrap(), 0);
}

#[test]
fn audit_seq_counter_survives_restore() {
    let mut s = sm();
    s.apply(&audit_cmd("login", 1), 1).unwrap();
    let pairs = s.dump_all().unwrap();
    let mut s2 = StateMachine::new(InMemoryStore::new());
    s2.restore_all(&pairs).unwrap();
    s2.apply(&audit_cmd("logout", 2), 2).unwrap();
    let all = s2.get_audit(None, None, None, 100).unwrap();
    assert_eq!(all.len(), 2);
    assert_eq!(all[0].seq, 2);
}
fn group_ref_setup(s: &mut Machine) -> ProjectId {
    let (pid, _) = setup(s);
    publish_shared(
        s,
        "infra",
        "host",
        Value::String("sh-host.old".into()),
        "gh1",
    );
    publish_shared(s, "infra", "port", Value::Int(6000), "gh2");
    pid
}

#[test]
fn group_ref_bind_requires_matching_shared_item() {
    let mut s = sm();
    let (pid, _) = setup(&mut s);
    let err = s
        .apply(
            &Command::RefBind {
                project: pid,
                binding: RefBinding {
                    group: "redis".into(),
                    item_key: None,
                    shared_group: "infra".into(),
                    shared_key: "redis".into(),
                },
                operator: String::new(),
            },
            20,
        )
        .unwrap_err();
    assert_eq!(err.kind, ErrorKind::Validation);
}

#[test]
fn group_ref_materializes_matching_items_at_publish() {
    let mut s = sm();
    let pid = group_ref_setup(&mut s);
    s.apply(
        &Command::RefBind {
            project: pid.clone(),
            binding: RefBinding {
                group: "redis".into(),
                item_key: None,
                shared_group: "infra".into(),
                shared_key: "redis".into(),
            },
            operator: String::new(),
        },
        30,
    )
    .unwrap();
    s.apply(
        &Command::DraftUpdate {
            project: pid.clone(),
            branch: BranchName("dev".into()),
            updates: vec![DraftUpdateItem {
                group: "redis".into(),
                key: "host".into(),
                value: Value::String("local-host".into()),
            }],
            deletes: vec![],
            operator: String::new(),
            ts: 0,
        },
        31,
    )
    .unwrap();
    s.apply(
        &Command::Publish {
            project: pid.clone(),
            branch: BranchName("dev".into()),
            comment: "g1".into(),
            request_id: "gr1".into(),
            operator: String::new(),
            ts: 0,
        },
        32,
    )
    .unwrap();
    let cfg = s.get_config(&pid, &BranchName("dev".into()), 0).unwrap();
    let redis = cfg.groups.get("redis").unwrap();
    assert_eq!(
        redis.get("host").unwrap(),
        &Value::String("local-host".into()),
        "草稿显式值优先"
    );
    assert_eq!(
        redis.get("port").unwrap(),
        &Value::Int(6000),
        "未显式 item 由组级共享物化"
    );
    assert!(!redis.contains_key("password"));
}

#[test]
fn group_ref_cascade_on_shared_publish() {
    let mut s = sm();
    let pid = group_ref_setup(&mut s);
    s.apply(
        &Command::RefBind {
            project: pid.clone(),
            binding: RefBinding {
                group: "redis".into(),
                item_key: None,
                shared_group: "infra".into(),
                shared_key: "redis".into(),
            },
            operator: String::new(),
        },
        40,
    )
    .unwrap();
    publish_shared(&mut s, "infra", "port", Value::Int(7000), "gh3");
    let cfg = s.get_config(&pid, &BranchName("dev".into()), 0).unwrap();
    assert_eq!(
        cfg.version, 2,
        "共享发布后活动版本推进（结构 v1 + 级联 v2）"
    );
    assert_eq!(
        cfg.groups.get("redis").unwrap().get("port").unwrap(),
        &Value::Int(7000),
        "组级级联更新匹配 item"
    );
    let t = s.get_config(&pid, &BranchName("test".into()), 0).unwrap();
    assert_eq!(
        t.groups.get("redis").unwrap().get("port").unwrap(),
        &Value::Int(7000)
    );
}

#[test]
fn group_ref_unbind_stops_materialization() {
    let mut s = sm();
    let pid = group_ref_setup(&mut s);
    s.apply(
        &Command::RefBind {
            project: pid.clone(),
            binding: RefBinding {
                group: "redis".into(),
                item_key: None,
                shared_group: "infra".into(),
                shared_key: "redis".into(),
            },
            operator: String::new(),
        },
        50,
    )
    .unwrap();
    s.apply(
        &Command::RefUnbind {
            project: pid.clone(),
            group: "redis".into(),
            item_key: None,
            operator: String::new(),
        },
        51,
    )
    .unwrap();
    s.apply(
        &Command::DraftUpdate {
            project: pid.clone(),
            branch: BranchName("dev".into()),
            updates: vec![DraftUpdateItem {
                group: "redis".into(),
                key: "host".into(),
                value: Value::String("h".into()),
            }],
            deletes: vec![],
            operator: String::new(),
            ts: 0,
        },
        52,
    )
    .unwrap();
    s.apply(
        &Command::Publish {
            project: pid.clone(),
            branch: BranchName("dev".into()),
            comment: "g2".into(),
            request_id: "gr2".into(),
            operator: String::new(),
            ts: 0,
        },
        53,
    )
    .unwrap();
    let cfg = s.get_config(&pid, &BranchName("dev".into()), 0).unwrap();
    assert!(
        !cfg.groups.get("redis").unwrap().contains_key("port"),
        "解绑后不再物化共享值"
    );
}

fn fake_ct(dek_v: u64) -> Value {
    Value::Secret(Ciphertext {
        enc: "aes-256-gcm".into(),
        v: 1,
        dek_v,
        nonce: "n".into(),
        ct: "c".into(),
        edek: "e".into(),
        edek_nonce: "en".into(),
    })
}

#[test]
fn rewrap_deks_rewrites_snapshot_shared_and_draft_secrets() {
    let mut s = sm();
    let (pid, _) = setup(&mut s);
    s.apply(
        &Command::SharedDraftUpdate {
            item: SharedItem {
                group: "infra".into(),
                key: "token".into(),
                ty: ValueType::Secret,
                secret: true,
                required: false,
                value: fake_ct(1),
                version: 0,
                description: None,
            },
            operator: String::new(),
        },
        60,
    )
    .unwrap();
    s.apply(
        &Command::SharedPublish {
            comment: "c".into(),
            request_id: "rw1".into(),
            operator: String::new(),
            ts: 0,
        },
        61,
    )
    .unwrap();
    s.apply(
        &Command::DraftUpdate {
            project: pid.clone(),
            branch: BranchName("dev".into()),
            updates: vec![
                DraftUpdateItem {
                    group: "redis".into(),
                    key: "host".into(),
                    value: Value::String("h".into()),
                },
                DraftUpdateItem {
                    group: "redis".into(),
                    key: "password".into(),
                    value: fake_ct(1),
                },
            ],
            deletes: vec![],
            operator: String::new(),
            ts: 0,
        },
        62,
    )
    .unwrap();
    s.apply(
        &Command::Publish {
            project: pid.clone(),
            branch: BranchName("dev".into()),
            comment: "c".into(),
            request_id: "rw2".into(),
            operator: String::new(),
            ts: 0,
        },
        63,
    )
    .unwrap();
    let count = s
        .rewrap_deks(&|ct: &Ciphertext| -> Option<Result<Ciphertext, Error>> {
            if ct.dek_v >= 2 {
                None
            } else {
                let mut n = ct.clone();
                n.dek_v = 2;
                Some(Ok(n))
            }
        })
        .unwrap();
    assert!(
        count >= 2,
        "快照 + 共享项中的 secret 均被重包，实际 {count}"
    );

    let cfg = s.get_config(&pid, &BranchName("dev".into()), 0).unwrap();
    match cfg.groups.get("redis").unwrap().get("password").unwrap() {
        Value::Secret(ct2) => assert_eq!(ct2.dek_v, 2, "快照 secret 已重包"),
        _ => panic!("expected secret"),
    }
    let rows = s.dump_all().unwrap();
    let sh_row = rows
        .iter()
        .find(|(k, _)| k == "sh/infra/token")
        .expect("shared item row");
    let shared = match &sh_row.1 {
        Entry::Shared(x) => x,
        other => panic!("expected shared item: {other:?}"),
    };
    match &shared.value {
        Value::Secret(ct2) => assert_eq!(ct2.dek_v, 2, "共享 secret 已重包"),
        _ => panic!("expected secret"),
    }
    s.apply(
        &Command::DraftUpdate {
            project: pid.clone(),
            branch: BranchName("test".into()),
            updates: vec![DraftUpdateItem {
                group: "redis".into(),
                key: "password".into(),
                value: fake_ct(1),
            }],
            deletes: vec![],
            operator: String::new(),
            ts: 0,
        },
        64,
    )
    .unwrap();
    let count3 = s
        .rewrap_deks(&|ct: &Ciphertext| -> Option<Result<Ciphertext, Error>> {
            if ct.dek_v >= 2 {
                None
            } else {
                let mut n = ct.clone();
                n.dek_v = 2;
                Some(Ok(n))
            }
        })
        .unwrap();
    assert!(count3 >= 1, "草稿 secret 也被重包，实际 {count3}");
    let count2 = s
        .rewrap_deks(&|ct: &Ciphertext| -> Option<Result<Ciphertext, Error>> {
            if ct.dek_v >= 2 {
                None
            } else {
                Some(Ok(ct.clone()))
            }
        })
        .unwrap();
    assert_eq!(count2, 0);
}

#[test]
fn shared_item_over_limit_rejected() {
    let mut s = sm();
    let big = "x".repeat(MAX_VALUE_BYTES + 1);
    let item = SharedItem {
        group: "g".into(),
        key: "k".into(),
        ty: ValueType::String,
        secret: false,
        required: false,
        value: Value::String(big),
        version: 0,
        description: None,
    };
    let err = s
        .apply(
            &Command::SharedDraftUpdate {
                item,
                operator: String::new(),
            },
            1,
        )
        .unwrap_err();
    assert_eq!(
        err.kind,
        ErrorKind::LimitExceeded,
        "超限额应 ERR_LIMIT_EXCEEDED"
    );
}

#[test]
fn admin_set_password_persists_and_reads() {
    let mut s = sm();
    let hash = "sha256-hex-of-password";
    s.apply(
        &Command::AdminSetPassword {
            password_hash: hash.into(),
        },
        1,
    )
    .unwrap();
    assert_eq!(s.get_admin_password_hash().unwrap().as_deref(), Some(hash));
    let s2 = sm();
    assert_eq!(s2.get_admin_password_hash().unwrap(), None);
}
fn publish_n_versions(s: &mut Machine, n: u64) -> (ProjectId, BranchName) {
    let (pid, _) = setup(s);
    let b = BranchName("dev".into());
    for i in 0..n {
        s.apply(
            &Command::DraftUpdate {
                project: pid.clone(),
                branch: b.clone(),
                updates: vec![DraftUpdateItem {
                    group: "redis".into(),
                    key: "host".into(),
                    value: Value::String(format!("10.0.0.{}", i + 1)),
                }],
                deletes: vec![],
                operator: String::new(),
                ts: 0,
            },
            100 + i as i64,
        )
        .unwrap();
        s.apply(
            &Command::Publish {
                project: pid.clone(),
                branch: b.clone(),
                comment: format!("v{}", i + 1),
                request_id: format!("r{}", i + 1),
                operator: String::new(),
                ts: 0,
            },
            200 + i as i64,
        )
        .unwrap();
    }
    (pid, b)
}
#[test]
fn checkpoint_layout_full_vs_diff() {
    let mut s = sm();
    let (pid, b) = publish_n_versions(&mut s, 104);
    assert_eq!(
        s.get_version_record(&pid, &b, 1).unwrap().unwrap().kind,
        VersionKind::Full,
        "v1 必须 full"
    );
    assert_eq!(
        s.get_version_record(&pid, &b, 100).unwrap().unwrap().kind,
        VersionKind::Full,
        "v100 必须 full（checkpoint）"
    );
    assert_eq!(
        s.get_version_record(&pid, &b, 2).unwrap().unwrap().kind,
        VersionKind::Diff,
        "v2 必须 diff"
    );
    assert_eq!(
        s.get_version_record(&pid, &b, 101).unwrap().unwrap().kind,
        VersionKind::Diff,
        "v101 必须 diff"
    );
    assert_eq!(
        *s.snapshot_of(&pid, &b, 100).unwrap().get("redis").unwrap().get("host").unwrap(),
        Value::String("10.0.0.99".into()),
        "v100 内容=第99次发布"
    );
    assert_eq!(
        *s.snapshot_of(&pid, &b, 101).unwrap().get("redis").unwrap().get("host").unwrap(),
        Value::String("10.0.0.100".into()),
        "v101 内容=第100次发布"
    );
}
#[test]
fn snapshot_rebuild_any_version() {
    let mut s = sm();
    let (pid, b) = publish_n_versions(&mut s, 105);
    for v in [2u64, 50, 100, 101, 105, 106] {
        let snap = s.snapshot_of(&pid, &b, v).unwrap();
        let host = snap.get("redis").unwrap().get("host").unwrap();
        assert_eq!(
            host,
            &Value::String(format!("10.0.0.{}", v - 1)),
            "v{v} 重建错误"
        );
    }
    let cfg = s.get_config(&pid, &b, 0).unwrap();
    assert_eq!(cfg.version, 106);
    assert_eq!(
        *cfg.groups.get("redis").unwrap().get("host").unwrap(),
        Value::String("10.0.0.105".into())
    );
}
#[test]
fn prune_keeps_checkpoint_base() {
    let mut s = sm();
    let (pid, b) = publish_n_versions(&mut s, 249);
    let removed = s.prune_versions(&pid, &b, 10).unwrap();
    assert!(removed > 0);
    assert!(
        s.get_version_record(&pid, &b, 200).unwrap().is_some(),
        "v200 checkpoint 必须保留为基座"
    );
    assert!(
        s.get_version_record(&pid, &b, 199).unwrap().is_none(),
        "v199 已裁剪"
    );
    let snap = s.snapshot_of(&pid, &b, 250).unwrap();
    assert_eq!(
        *snap.get("redis").unwrap().get("host").unwrap(),
        Value::String("10.0.0.249".into()),
        "v250 重建正确"
    );
}
#[test]
fn rewrap_deks_covers_diff_secrets() {
    let mut s = sm();
    let (pid, _) = setup(&mut s);
    let b = BranchName("dev".into());
    s.apply(
        &Command::DraftUpdate {
            project: pid.clone(),
            branch: b.clone(),
            updates: vec![DraftUpdateItem {
                group: "redis".into(),
                key: "host".into(),
                value: Value::String("h".into()),
            }],
            deletes: vec![],
            operator: String::new(),
            ts: 0,
        },
        5,
    )
    .unwrap();
    s.apply(
        &Command::DraftUpdate {
            project: pid.clone(),
            branch: b.clone(),
            updates: vec![DraftUpdateItem {
                group: "redis".into(),
                key: "password".into(),
                value: Value::Secret(Ciphertext {
                    enc: "aes-256-gcm".into(),
                    v: 1,
                    dek_v: 1,
                    nonce: "n".into(),
                    ct: "ct-old".into(),
                    edek: "edek-old".into(),
                    edek_nonce: "en".into(),
                }),
            }],
            deletes: vec![],
            operator: String::new(),
            ts: 0,
        },
        5,
    )
    .unwrap();
    s.apply(
        &Command::Publish {
            project: pid.clone(),
            branch: b.clone(),
            comment: "secret v".into(),
            request_id: "rs1".into(),
            operator: String::new(),
            ts: 0,
        },
        7,
    )
    .unwrap();
    let count = s
        .rewrap_deks(&|ct: &Ciphertext| -> Option<Result<Ciphertext, Error>> {
            if ct.ct == "ct-old" {
                let mut n = ct.clone();
                n.ct = "ct-new".into();
                Some(Ok(n))
            } else {
                None
            }
        })
        .unwrap();
    assert!(count >= 1, "diff 中 secret 应被重包");
    let snap = s.snapshot_of(&pid, &b, 2).unwrap();
    match snap.get("redis").unwrap().get("password").unwrap() {
        Value::Secret(ct) => assert_eq!(ct.ct, "ct-new", "重包后密文应更新"),
        other => panic!("应为 Secret: {other:?}"),
    }
}
#[test]
fn multi_session_coexists() {
    let mut s = sm();
    for i in 0..3 {
        let sid = format!("sid{i}");
        s.apply(
            &Command::MultiSessionLogin {
                token_hash: format!("hash{i}"),
                issued_at: 100 + i,
                expires_at: None,
                session_id: sid.clone(),
            },
            10 + i,
        )
        .unwrap();
        assert!(
            s.get_session_with(&sid).unwrap().is_some(),
            "sess/admin/{sid} 应存在"
        );
    }
    assert_eq!(
        s.list_admin_sessions().unwrap().len(),
        3,
        "3 个管理员会话并存"
    );
    s.apply(
        &Command::ProjectCreate {
            name: "p".into(),
            operator: String::new(),
            ts: 0,
        },
        19,
    )
    .unwrap();
    s.apply(
        &Command::ProjectAdminCreate {
            project: "p".into(),
            username: "alice".into(),
            salt: "salt".into(),
            password_hash: "ph".into(),
            ts: 0,
        },
        20,
    )
    .unwrap();
    for i in 0..2 {
        let sid = format!("pasid{i}");
        s.apply(
            &Command::MultiPaSessionLogin {
                username: "alice".into(),
                token_hash: format!("phash{i}"),
                issued_at: 200 + i,
                expires_at: None,
                device_id: "cli".into(),
                session_id: sid.clone(),
            },
            30 + i,
        )
        .unwrap();
        assert!(
            s.get_pa_session_with("alice", &sid).unwrap().is_some(),
            "sess/pa/alice/{sid} 应存在"
        );
    }
}
#[test]
fn multi_session_independent_logout() {
    let mut s = sm();
    for i in 0..2 {
        s.apply(
            &Command::MultiSessionLogin {
                token_hash: format!("h{i}"),
                issued_at: 100 + i,
                expires_at: None,
                session_id: format!("s{i}"),
            },
            10 + i,
        )
        .unwrap();
    }
    s.apply(
        &Command::MultiSessionLogout {
            session_id: "s0".into(),
        },
        20,
    )
    .unwrap();
    assert!(s.get_session_with("s0").unwrap().is_none(), "s0 已登出");
    assert!(s.get_session_with("s1").unwrap().is_some(), "s1 不受影响");
}
#[test]
fn multi_session_independent_heartbeat() {
    let mut s = sm();
    s.apply(
        &Command::MultiSessionLogin {
            token_hash: "h0".into(),
            issued_at: 100,
            expires_at: None,
            session_id: "s0".into(),
        },
        10,
    )
    .unwrap();
    s.apply(
        &Command::MultiSessionLogin {
            token_hash: "h1".into(),
            issued_at: 100,
            expires_at: None,
            session_id: "s1".into(),
        },
        11,
    )
    .unwrap();
    s.apply(
        &Command::MultiSessionHeartbeat {
            session_id: "s0".into(),
            expires_at: Some(9999),
        },
        12,
    )
    .unwrap();
    assert_eq!(
        s.get_session_with("s0").unwrap().unwrap().expires_at,
        Some(9999),
        "s0 已续期"
    );
    assert_eq!(
        s.get_session_with("s1").unwrap().unwrap().expires_at,
        None,
        "s1 未受影响"
    );
    let e = s
        .apply(
            &Command::MultiSessionHeartbeat {
                session_id: "ghost".into(),
                expires_at: Some(1),
            },
            13,
        )
        .unwrap_err();
    assert_eq!(e.kind, ErrorKind::SessionExpired);
}
#[test]
fn multi_session_force_logout_single_and_all() {
    let mut s = sm();
    for i in 0..3 {
        s.apply(
            &Command::MultiSessionLogin {
                token_hash: format!("h{i}"),
                issued_at: 100 + i,
                expires_at: None,
                session_id: format!("s{i}"),
            },
            10 + i,
        )
        .unwrap();
    }
    s.apply(
        &Command::MultiSessionLogout {
            session_id: "s1".into(),
        },
        20,
    )
    .unwrap();
    assert!(s.get_session_with("s1").unwrap().is_none());
    assert!(s.get_session_with("s0").unwrap().is_some());
    s.apply(&Command::MultiSessionLogoutAll, 21).unwrap();
    assert_eq!(s.list_admin_sessions().unwrap().len(), 0, "全部会话已清");
    s.apply(
        &Command::SessionLogin {
            token_hash: "old".into(),
            issued_at: 1,
            expires_at: None,
        },
        22,
    )
    .unwrap();
    s.apply(&Command::MultiSessionLogoutAll, 23).unwrap();
    assert!(s.get_session().unwrap().is_none(), "旧格式会话也被清");
}
#[test]
fn multi_session_legacy_compat() {
    let mut s = sm();
    s.apply(
        &Command::SessionLogin {
            token_hash: "a".into(),
            issued_at: 1,
            expires_at: None,
        },
        1,
    )
    .unwrap();
    let e = s
        .apply(
            &Command::SessionLogin {
                token_hash: "b".into(),
                issued_at: 2,
                expires_at: None,
            },
            2,
        )
        .unwrap_err();
    assert_eq!(e.kind, ErrorKind::SessionInUse, "旧命令仍单会话");
    s.apply(
        &Command::MultiSessionLogin {
            token_hash: "c".into(),
            issued_at: 3,
            expires_at: None,
            session_id: "n1".into(),
        },
        3,
    )
    .unwrap();
    assert!(s.get_session().unwrap().is_some(), "旧会话仍在");
    assert!(s.get_session_with("n1").unwrap().is_some(), "新会话并存");
}
#[test]
fn multi_session_cascade_clears_all() {
    let mut s = sm();
    s.apply(
        &Command::ProjectCreate {
            name: "p".into(),
            operator: String::new(),
            ts: 0,
        },
        1,
    )
    .unwrap();
    s.apply(
        &Command::ProjectAdminCreate {
            project: "p".into(),
            username: "bob".into(),
            salt: "s".into(),
            password_hash: "h".into(),
            ts: 0,
        },
        1,
    )
    .unwrap();
    s.apply(
        &Command::PaSessionLogin {
            username: "bob".into(),
            token_hash: "old".into(),
            issued_at: 1,
            expires_at: None,
            device_id: "cli".into(),
        },
        2,
    )
    .unwrap();
    s.apply(
        &Command::MultiPaSessionLogin {
            username: "bob".into(),
            token_hash: "new".into(),
            issued_at: 3,
            expires_at: None,
            device_id: "cli".into(),
            session_id: "n1".into(),
        },
        3,
    )
    .unwrap();
    s.apply(
        &Command::ProjectAdminDelete {
            username: "bob".into(),
        },
        4,
    )
    .unwrap();
    assert!(s.get_pa_session("bob").unwrap().is_none(), "旧格式会话已清");
    assert!(
        s.get_pa_session_with("bob", "n1").unwrap().is_none(),
        "新格式会话已清"
    );
}
