//! Parts of the state machine: names, references, and writes that are not yet committed.
use defing::command::{Command, DraftUpdateItem};
use defing::error::ErrorKind;
use defing::keys::{snapshot_key, version_key, K_IDX_REF, K_IDX_REFG};
use defing::model::{
    BranchName, Entry, GroupDef, ItemDef, ProjectId, RefBinding, SharedItem, Value, ValueType,
};
use defing::state::{valid_branch, valid_name, valid_pa_username, StateMachine};
use defing::store::{InMemoryStore, Store};

fn sm() -> StateMachine<InMemoryStore> {
    StateMachine::new(InMemoryStore::new())
}

fn shared_item(group: &str, key: &str) -> SharedItem {
    SharedItem {
        group: group.into(),
        key: key.into(),
        ty: ValueType::String,
        secret: false,
        required: false,
        value: Value::String("v".into()),
        version: 0,
        description: None,
    }
}

#[test]
fn shared_draft_rejects_dangerous_names() {
    let mut s = sm();
    assert!(s
        .apply_shared_draft_update(&shared_item("a/b", "k"), "")
        .is_err());
    assert!(s
        .apply_shared_draft_update(&shared_item("g", "k/x"), "")
        .is_err());
    for (g, k) in [
        ("<img onerror=alert(1)>", "k"),
        ("g", "<img>"),
        ("配置", "k"),
        ("g", "a b"),
        ("g", "a'b"),
        ("g", "a&b"),
    ] {
        assert!(
            s.apply_shared_draft_update(&shared_item(g, k), "").is_err(),
            "{g:?}/{k:?} must be rejected"
        );
    }
}

#[test]
fn shared_draft_accepts_safe_names() {
    let mut s = sm();
    for (g, k) in [
        ("infra.db", "host_name-1"),
        ("redis", "max_conns"),
        ("g", "k"),
    ] {
        assert!(
            s.apply_shared_draft_update(&shared_item(g, k), "").is_ok(),
            "{g:?}/{k:?} must be accepted"
        );
    }
}

#[test]
fn ref_bind_rejects_dangerous_shared_names() {
    let mut s = sm();
    for (sg, sk) in [
        ("infra/..", "k"),
        ("infra", "<img>"),
        ("配置", "k"),
        ("infra", "a b"),
    ] {
        let b = RefBinding {
            group: "redis".into(),
            item_key: Some("host".into()),
            shared_group: sg.into(),
            shared_key: sk.into(),
        };
        let e = s
            .apply_ref_bind(&ProjectId("p".into()), &b, "")
            .expect_err("must reject");
        assert_eq!(e.kind, ErrorKind::Validation, "{sg:?}/{sk:?}: {e:?}");
    }
}

#[test]
fn ref_bind_accepts_safe_shared_names() {
    let mut s = sm();
    let b = RefBinding {
        group: "redis".into(),
        item_key: Some("host".into()),
        shared_group: "infra.db".into(),
        shared_key: "host-1".into(),
    };
    let e = s
        .apply_ref_bind(&ProjectId("p".into()), &b, "")
        .expect_err("project missing");
    assert_eq!(e.kind, ErrorKind::NotFound, "{e:?}");
}

#[test]
fn project_delete_cleans_orphan_ref_indexes() {
    let proj = "order-service";
    let mut store = InMemoryStore::new();
    let mark = Entry::Text("1".into());
    let item_idx = format!("{K_IDX_REF}infra/host/{proj}/redis/host");
    let group_idx = format!("{K_IDX_REFG}infra/{proj}/redis");
    store.put(&item_idx, &mark).unwrap();
    store.put(&group_idx, &mark).unwrap();
    let other_item = format!("{K_IDX_REF}infra/host/other-svc/redis/host");
    let other_group = format!("{K_IDX_REFG}infra/other-svc/redis");
    store.put(&other_item, &mark).unwrap();
    store.put(&other_group, &mark).unwrap();

    let mut s = StateMachine::new(store);
    s.apply(
        &Command::ProjectCreate {
            name: proj.into(),
            operator: String::new(),
            ts: 0,
        },
        1,
    )
    .unwrap();
    s.apply(
        &Command::ProjectDelete {
            id: ProjectId(proj.into()),
            operator: String::new(),
        },
        2,
    )
    .unwrap();

    for (ks, _) in s.store().get_prefix(K_IDX_REF).unwrap() {
        if let Some(rest) = ks.strip_prefix(K_IDX_REF) {
            let parts: Vec<&str> = rest.split('/').collect();
            assert!(
                !(parts.len() == 5 && parts[2] == proj),
                "orphan idx/ref key survives: {ks}"
            );
        }
    }
    for (ks, _) in s.store().get_prefix(K_IDX_REFG).unwrap() {
        if let Some(rest) = ks.strip_prefix(K_IDX_REFG) {
            let parts: Vec<&str> = rest.split('/').collect();
            assert!(
                !(parts.len() == 3 && parts[1] == proj),
                "orphan idx/refg key survives: {ks}"
            );
        }
    }
    assert!(s.store().get(&other_item).unwrap().is_some());
    assert!(s.store().get(&other_group).unwrap().is_some());
}

#[test]
fn pending_read_merge_visibility() {
    let text = |t: &str| Entry::Text(t.into());
    let mut store = InMemoryStore::new();
    store.put("p/a", &text("sa")).unwrap();
    store.put("p/z", &text("sz")).unwrap();
    let mut s = StateMachine::new(store);
    s.put_pending("p/x".into(), text("v1"));
    assert_eq!(s.get_merged("p/x").unwrap().unwrap(), text("v1"));
    s.put_pending("p/x".into(), text("v2"));
    assert_eq!(s.get_merged("p/x").unwrap().unwrap(), text("v2"));
    s.delete_pending("p/x");
    assert_eq!(s.get_merged("p/x").unwrap(), None);
    s.put_pending("p/x".into(), text("v3"));
    assert_eq!(s.get_merged("p/x").unwrap().unwrap(), text("v3"));
    s.put_pending("p/m".into(), text("pm"));
    s.delete_pending("p/a");
    let rows = s.get_prefix_merged("p/").unwrap();
    let map: std::collections::BTreeMap<String, Entry> = rows.into_iter().collect();
    assert_eq!(map.get("p/a"), None);
    assert_eq!(map.get("p/m").unwrap(), &text("pm"));
    assert_eq!(map.get("p/z").unwrap(), &text("sz"));
    assert_eq!(map.get("p/x").unwrap(), &text("v3"));
    let rows2 = s.get_prefix_merged("p/m").unwrap();
    assert_eq!(rows2.len(), 1);
}

#[test]
fn pending_is_written_or_dropped_as_a_whole() {
    let text = |t: &str| Entry::Text(t.into());
    let mut s = sm();
    s.put_pending("a".into(), text("1"));
    s.put_pending("b".into(), text("2"));
    assert!(s.store().get("a").unwrap().is_none());
    s.abort_pending();
    assert!(s.get_merged("a").unwrap().is_none());
    s.put_pending("a".into(), text("1"));
    s.delete_pending("b");
    s.flush_pending().unwrap();
    assert_eq!(s.store().get("a").unwrap().unwrap(), text("1"));
    assert!(s.store().get("b").unwrap().is_none());
}

#[test]
fn apply_failure_aborts_pending() {
    let mut s = sm();
    s.apply(
        &Command::ProjectCreate {
            name: "p".into(),
            operator: String::new(),
            ts: 0,
        },
        1,
    )
    .unwrap();
    s.apply(
        &Command::StructureDraftSet {
            project: "p".into(),
            base_version: 1,
            groups: vec![GroupDef {
                name: "redis".into(),
                items: vec![ItemDef {
                    key: "host".into(),
                    ty: ValueType::String,
                    required: true,
                    secret: false,
                    validate: None,
                    description: None,
                    shared_ref: None,
                }],
            }],
            operator: String::new(),
        },
        2,
    )
    .unwrap();
    s.apply(
        &Command::PublishStructure {
            project: "p".into(),
            comment: "s".into(),
            request_id: "s1".into(),
            operator: String::new(),
            ts: 0,
        },
        3,
    )
    .unwrap();
    let before = s.dump_all().unwrap();
    let e = s
        .apply(
            &Command::Publish {
                project: "p".into(),
                branch: BranchName("dev".into()),
                comment: "x".into(),
                request_id: "r1".into(),
                operator: String::new(),
                ts: 0,
            },
            4,
        )
        .unwrap_err();
    assert_eq!(e.kind, ErrorKind::NoDraft);
    assert_eq!(s.dump_all().unwrap(), before);
    let pid: ProjectId = "p".into();
    let dev = BranchName("dev".into());
    assert!(s.store().get(&version_key(&pid, &dev, 4)).unwrap().is_none());
    assert!(s.store().get(&snapshot_key(&pid, &dev, 4)).unwrap().is_none());
    s.apply(
        &Command::DraftUpdate {
            project: "p".into(),
            branch: BranchName("dev".into()),
            updates: vec![DraftUpdateItem {
                group: "redis".into(),
                key: "host".into(),
                value: Value::String("h".into()),
            }],
            deletes: vec![],
            operator: String::new(),
            ts: 0,
        },
        5,
    )
    .unwrap();
    assert!(s
        .apply(
            &Command::Publish {
                project: "p".into(),
                branch: BranchName("dev".into()),
                comment: "v1".into(),
                request_id: "r2".into(),
                operator: String::new(),
                ts: 0,
            },
            6,
        )
        .is_ok());
}

#[test]
fn names_of_projects_branches_and_accounts() {
    for ok in ["a", "order-service", "x9", "0", "a-"] {
        assert!(valid_name(ok) && valid_branch(ok), "{ok}");
    }
    for bad in ["", "-a", "A", "a/b", "a_b", "é"] {
        assert!(!valid_name(bad) && !valid_branch(bad), "{bad}");
    }
    assert!(valid_name(&"a".repeat(128)) && !valid_name(&"a".repeat(129)));
    assert!(valid_branch(&"a".repeat(64)) && !valid_branch(&"a".repeat(65)));
    for ok in ["bob", "A_b-9", "xy"] {
        assert!(valid_pa_username(ok), "{ok}");
    }
    for bad in ["a", "admin", "a b", "a.b", ""] {
        assert!(!valid_pa_username(bad), "{bad}");
    }
}

#[test]
fn the_store_in_memory() {
    let text = |t: &str| Entry::Text(t.into());
    let mut s = InMemoryStore::new();
    assert!(s.get_prefix("").unwrap().is_empty());
    assert!(s.get("missing").unwrap().is_none());
    s.put("p/x", &text("1")).unwrap();
    s.put("p/x/struct", &text("2")).unwrap();
    s.put("p/y", &text("3")).unwrap();
    assert_eq!(s.get_prefix("p/x").unwrap().len(), 2);
    assert!(s.get_prefix("zzz").unwrap().is_empty());
    s.put_batch(&vec![("a".into(), text("1")), ("b".into(), text("2"))]).unwrap();
    assert_eq!(s.get_prefix("").unwrap().len(), 5);
    s.write_batch(
        &vec![("new".into(), text("n")), ("a".into(), text("9"))],
        &vec!["b".into(), "a".into()],
    )
    .unwrap();
    assert_eq!(s.get("a").unwrap().unwrap(), text("9"));
    assert!(s.get("b").unwrap().is_none());
    s.delete("p/y").unwrap();
    s.flush().unwrap();
    let keys: Vec<String> = s.get_prefix("").unwrap().into_iter().map(|r| r.0).collect();
    assert_eq!(keys, vec!["a", "new", "p/x", "p/x/struct"]);
}
