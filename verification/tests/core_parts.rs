//! Errors, keys, validation, changes and masking.
use defing::diff::{apply_diff, compute_diff, set_item};
use defing::error::{Detail, Error, ErrorKind};
use defing::json::{value_from_members, value_json, ValueMembers};
use defing::keys::{
    audit_key, branch_prefix, branch_state_key, diff_key, group_ref_index_key, idx_pname, idx_ref,
    project_key, ref_index_key, ref_key, session_key, shared_draft_key, shared_key, shared_prefix,
    snapshot_key, struct_draft_key, struct_key, version_key,
};
use defing::kinds::{kind_of_key, EntryKind};
use defing::model::{
    BranchName, BranchState, ChangeKind, Ciphertext, DiffEntry, DraftValue, EventType, Float, GroupDef,
    ItemDef, ProjectId, PublishEvent, SharedItem, SnapshotMap, Structure, Value, ValueType,
};
use defing::ordmap::OrdMap;
use defing::validator::{valid_key_name, validate_publish, validate_structure, validate_value};
use defing::wire::{mask_diff_entry, mask_event_for_wire, masked_value};

// ---- errors ----

#[test]
fn kind_codes_are_stable() {
    assert_eq!(ErrorKind::LeaderRedirect.code(), "ERR_LEADER_REDIRECT");
    assert_eq!(ErrorKind::NoDraft.code(), "ERR_NO_DRAFT");
    assert_eq!(ErrorKind::LimitExceeded.code(), "ERR_LIMIT_EXCEEDED");
}

#[test]
fn error_helpers() {
    let e = Error::not_found("project x");
    assert_eq!(e.kind, ErrorKind::NotFound);
    assert!(e.text().contains("ERR_NOT_FOUND"));

    let e = Error::publish_blocked(Detail {
        name: "missing".into(),
        messages: vec!["a/b".into()],
    });
    assert!(e.detail.is_some());
}

#[test]
fn error_texts_and_parts() {
    assert_eq!(Error::not_found("x").text(), "[ERR_NOT_FOUND] not found: x");
    assert_eq!(Error::validation("v").text(), "[ERR_VALIDATION] v");
    assert_eq!(Error::conflict("c").kind, ErrorKind::Conflict);
    assert_eq!(Error::limit_exceeded("l").kind, ErrorKind::LimitExceeded);
    assert_eq!(Error::internal("i").message, "i");
    let e = Error::publish_blocked(Detail { name: "n".into(), messages: vec![] });
    assert_eq!(e.kind, ErrorKind::PublishBlocked);
    assert_eq!(e.message, "publish blocked by integrity checks");
    let e = Error::new(ErrorKind::LeaderRedirect, "go").with_leader_hint("n1:80".into());
    assert_eq!(e.leader_hint, Some("n1:80".to_string()));
    let e = Error::new(ErrorKind::Raft, "r").with_detail(Detail { name: "d".into(), messages: vec![] });
    assert_eq!(e.detail.unwrap().name, "d");
    let codes = [
        (ErrorKind::NotFound, "ERR_NOT_FOUND"),
        (ErrorKind::Validation, "ERR_VALIDATION"),
        (ErrorKind::PublishBlocked, "ERR_PUBLISH_BLOCKED"),
        (ErrorKind::VersionPruned, "ERR_VERSION_PRUNED"),
        (ErrorKind::SessionInUse, "ERR_SESSION_IN_USE"),
        (ErrorKind::SessionExpired, "ERR_SESSION_EXPIRED"),
        (ErrorKind::Forbidden, "ERR_FORBIDDEN"),
        (ErrorKind::CycleRef, "ERR_CYCLE_REF"),
        (ErrorKind::Conflict, "ERR_CONFLICT"),
        (ErrorKind::Internal, "ERR_INTERNAL"),
        (ErrorKind::Storage, "ERR_STORAGE"),
        (ErrorKind::Raft, "ERR_RAFT"),
        (ErrorKind::Crypto, "ERR_CRYPTO"),
    ];
    for (kind, code) in codes {
        assert_eq!(kind.code(), code);
    }
}

// ---- keys ----

#[test]
fn key_shapes() {
    let id: ProjectId = "order-service".into();
    let b: BranchName = "prod".into();
    assert_eq!(project_key(&id), "p/order-service");
    assert_eq!(struct_key(&id), "p/order-service/struct");
    assert_eq!(branch_state_key(&id, &b), "p/order-service/b/prod/state");
    assert_eq!(version_key(&id, &b, 12), "p/order-service/b/prod/v/12");
    assert_eq!(
        snapshot_key(&id, &b, 12),
        "p/order-service/b/prod/v/12/snap"
    );
    assert_eq!(shared_key("redis", "host"), "sh/redis/host");
    assert_eq!(idx_pname("order-service"), "idx/pname/order-service");
    assert_eq!(audit_key(7), "audit/00000000000000000007");
}

#[test]
fn more_key_shapes() {
    let id: ProjectId = "p1".into();
    let b: BranchName = "dev".into();
    assert_eq!(struct_draft_key(&id), "p/p1/struct-draft");
    assert_eq!(branch_prefix(&id, &b), "p/p1/b/dev");
    assert_eq!(diff_key(&id, &b, 3), "p/p1/b/dev/v/3/diff");
    assert_eq!(ref_key(&id, "g", Some("k")), "p/p1/refs/g/k");
    assert_eq!(ref_key(&id, "g", None), "p/p1/refs/g");
    assert_eq!(shared_prefix("infra"), "sh/infra/");
    assert_eq!(shared_draft_key("infra", "host"), "sh-draft/infra/host");
    assert_eq!(session_key(), "sess/admin");
    assert_eq!(idx_ref("infra", "host"), "idx/ref/infra/host");
    assert_eq!(ref_index_key("infra", "host", &id, "g", "k"), "idx/ref/infra/host/p1/g/k");
    assert_eq!(group_ref_index_key("infra", &id, "g"), "idx/refg/infra/p1/g");
    assert_eq!(audit_key(u64::MAX), "audit/18446744073709551615");
}

// ---- validation ----

fn str_def(key: &str, required: bool) -> ItemDef {
    ItemDef {
        key: key.into(),
        ty: ValueType::String,
        required,
        secret: false,
        validate: None,
        description: None,
        shared_ref: None,
    }
}

fn def(key: &str, ty: ValueType) -> ItemDef {
    let mut d = str_def(key, false);
    d.ty = ty;
    d
}

#[test]
fn type_mismatch() {
    let def = str_def("port", false);
    assert!(!validate_value(&def, &Value::Int(8080)).is_empty());
    assert!(validate_value(&def, &Value::String("8080".into())).is_empty());
}

#[test]
fn json_validity() {
    let def = ItemDef {
        key: "cfg".into(),
        ty: ValueType::Json,
        required: false,
        secret: false,
        validate: None,
        description: None,
        shared_ref: None,
    };
    assert!(validate_value(&def, &Value::Json("{bad".into())).len() == 1);
    assert!(validate_value(&def, &Value::Json("{\"a\":1}".into())).is_empty());
}

#[test]
fn required_unset_blocks() {
    let structure = Structure {
        version: 1,
        groups: vec![GroupDef {
            name: "redis".into(),
            items: vec![str_def("host", true)],
        }],
    };
    let empty = OrdMap::new();
    let errs = validate_publish(&empty, &structure);
    assert_eq!(errs, vec!["redis/host: required but unset".to_string()]);
}

#[test]
fn required_met_passes() {
    let structure = Structure {
        version: 1,
        groups: vec![GroupDef {
            name: "redis".into(),
            items: vec![str_def("host", true)],
        }],
    };
    let mut inner = OrdMap::new();
    inner.insert(
        "host".into(),
        DraftValue {
            value: Value::String("127.0.0.1".into()),
            updated_at: 1,
        },
    );
    let mut draft = OrdMap::new();
    draft.insert("redis".into(), inner);
    assert!(validate_publish(&draft, &structure).is_empty());
}

#[test]
fn duplicate_keys_rejected() {
    let structure = Structure {
        version: 1,
        groups: vec![GroupDef {
            name: "g".into(),
            items: vec![str_def("a", false), str_def("a", false)],
        }],
    };
    assert!(!validate_structure(&structure).is_empty());
}

#[test]
fn secret_flag_requires_secret_type() {
    let structure = Structure {
        version: 1,
        groups: vec![GroupDef {
            name: "g".into(),
            items: vec![ItemDef {
                key: "s".into(),
                ty: ValueType::String,
                required: false,
                secret: true,
                validate: None,
                description: None,
                shared_ref: None,
            }],
        }],
    };
    assert!(!validate_structure(&structure).is_empty());
}

#[test]
fn key_name_accepts_safe_charset() {
    for ok in ["db.host", "max_conns", "A-Z0_9.a", "x-1.y_2"] {
        assert!(valid_key_name(ok), "{ok:?} should be accepted");
    }
}

#[test]
fn key_name_rejects_dangerous_charset() {
    for bad in [
        "a/b", "<img>", "a b", "中文", "a'b", "", "x&y", "x\"y", "a<b>c",
    ] {
        assert!(!valid_key_name(bad), "{bad:?} should be rejected");
    }
}

#[test]
fn structure_rejects_dangerous_names() {
    let structure = Structure {
        version: 1,
        groups: vec![
            GroupDef {
                name: "<img onerror=alert(1)>".into(),
                items: vec![str_def("k", false)],
            },
            GroupDef {
                name: "g".into(),
                items: vec![str_def("a/b", false)],
            },
        ],
    };
    let errs = validate_structure(&structure);
    assert!(
        errs.iter().any(|e| e.contains("<img onerror")),
        "group XSS name must be rejected: {errs:?}"
    );
    assert!(
        errs.iter().any(|e| e.contains("a/b")),
        "item key with '/' must be rejected: {errs:?}"
    );
}

#[test]
fn value_messages() {
    assert_eq!(
        validate_value(&def("port", ValueType::Int), &Value::String("x".into())),
        vec!["port: type mismatch (expected Int)".to_string()]
    );
    assert_eq!(
        validate_value(&def("s", ValueType::String), &Value::String("x".repeat(65_537))),
        vec!["s: string too long".to_string()]
    );
    assert!(validate_value(&def("s", ValueType::String), &Value::String("x".repeat(65_536))).is_empty());
    // The limit counts bytes, not characters.
    assert_eq!(
        validate_value(&def("s", ValueType::String), &Value::String("中".repeat(21_846))).len(),
        1
    );
    assert_eq!(
        validate_value(&def("a", ValueType::Array), &Value::Array(vec!["x".repeat(8_193)])),
        vec!["a: array element too long".to_string()]
    );
    assert_eq!(
        validate_value(&def("j", ValueType::Json), &Value::Json("{".into())),
        vec!["j: invalid json".to_string()]
    );
    assert!(validate_value(&def("b", ValueType::Bool), &Value::Bool(false)).is_empty());
    assert!(validate_value(&def("f", ValueType::Float), &Value::Float(Float::parse("1.5").unwrap())).is_empty());
}

#[test]
fn structure_messages() {
    let group = |name: &str, items: Vec<ItemDef>| GroupDef { name: name.into(), items };
    let mut secret = str_def("s", false);
    secret.secret = true;
    let structure = Structure {
        version: 1,
        groups: vec![
            group("", vec![]),
            group("g", vec![str_def("a", false), str_def("a", false), secret]),
            group("g", vec![]),
        ],
    };
    assert_eq!(
        validate_structure(&structure),
        vec![
            "invalid group name length".to_string(),
            "invalid group name \"\": only [A-Za-z0-9._-] allowed".to_string(),
            "g/a: duplicate item key".to_string(),
            "g/s: secret flag requires secret type".to_string(),
            "duplicate group: g".to_string(),
        ]
    );
    let many = Structure {
        version: 1,
        groups: (0..501).map(|i| group(&format!("g{i}"), vec![])).collect(),
    };
    assert_eq!(validate_structure(&many), vec!["too many groups (max 500)".to_string()]);
    let long = "k".repeat(129);
    let names = Structure { version: 1, groups: vec![group("g", vec![str_def(&long, false)])] };
    assert_eq!(validate_structure(&names).len(), 2);
    assert!(valid_key_name(&"k".repeat(128)));
    assert!(!valid_key_name(&long));
}

// ---- changes ----

fn map(pairs: &[(&str, &str, &str)]) -> SnapshotMap {
    let mut m = SnapshotMap::new();
    for (g, k, v) in pairs {
        set_item(&mut m, g, k, Value::String((*v).to_string()));
    }
    m
}

#[test]
fn upsert_change_delete() {
    let old = map(&[("redis", "host", "10.0.0.1"), ("redis", "port", "6379")]);
    let new = map(&[("redis", "host", "10.0.0.9"), ("redis", "port", "6380")]);
    let new2 = {
        let mut m = new;
        set_item(&mut m, "db", "user", Value::String("root".into()));
        m
    };
    let diff = compute_diff(&old, &new2);
    assert_eq!(diff.len(), 3);
    assert_eq!(apply_diff(&old, &diff), new2);
}

#[test]
fn delete_when_absent() {
    let old = map(&[("a", "x", "1"), ("a", "y", "2")]);
    let new = map(&[("a", "x", "1")]);
    let diff = compute_diff(&old, &new);
    assert_eq!(diff.len(), 1);
    assert_eq!(diff[0].kind, ChangeKind::Delete);
    assert_eq!(diff[0].key, "y");
    assert_eq!(apply_diff(&old, &diff), new);
}

#[test]
fn no_diff_when_equal() {
    let m = map(&[("a", "x", "1")]);
    assert!(compute_diff(&m, &m).is_empty());
}

#[test]
fn secret_compared_by_ciphertext() {
    let ct = Ciphertext {
        enc: "aes-256-gcm".into(),
        v: 1,
        dek_v: 1,
        nonce: "n".into(),
        ct: "c".into(),
        edek: "e".into(),
        edek_nonce: "en".into(),
    };
    let mut old = SnapshotMap::new();
    set_item(&mut old, "auth", "pwd", Value::Secret(ct.clone()));
    assert!(compute_diff(&old, &old).is_empty());
}

#[test]
fn a_group_goes_with_its_last_item() {
    let old = map(&[("a", "x", "1"), ("b", "y", "2")]);
    let new = map(&[("b", "y", "2")]);
    let diff = compute_diff(&old, &new);
    assert_eq!(diff.len(), 1);
    let back = apply_diff(&old, &diff);
    assert!(!back.contains_key("a"));
    assert_eq!(back, new);
    // A change that has no value changes nothing, and what is not there cannot be deleted.
    let odd = vec![
        DiffEntry { group: "b".into(), key: "y".into(), kind: ChangeKind::Upsert, new_value: None },
        DiffEntry { group: "z".into(), key: "y".into(), kind: ChangeKind::Delete, new_value: None },
    ];
    assert_eq!(apply_diff(&new, &odd), new);
}

#[test]
fn changes_come_in_the_order_of_groups_and_keys() {
    let old = map(&[("b", "gone", "1")]);
    let new = map(&[("c", "k", "1"), ("a", "z", "1"), ("a", "y", "1")]);
    let diff = compute_diff(&old, &new);
    let names: Vec<String> = diff.iter().map(|d| format!("{}/{}", d.group, d.key)).collect();
    assert_eq!(names, vec!["a/y", "a/z", "c/k", "b/gone"]);
}

#[test]
fn both_zeros_are_equal() {
    let f = |t: &str| Value::Float(Float::parse(t).unwrap());
    let mut old = SnapshotMap::new();
    set_item(&mut old, "g", "k", f("0.0"));
    let mut new = SnapshotMap::new();
    set_item(&mut new, "g", "k", f("-0.0"));
    assert!(compute_diff(&old, &new).is_empty());
    set_item(&mut new, "g", "k", f("0.5"));
    assert_eq!(compute_diff(&old, &new).len(), 1);
}

// ---- masking ----

fn ct() -> Ciphertext {
    Ciphertext {
        enc: "aes-256-gcm".into(),
        v: 1,
        dek_v: 1,
        nonce: "bm9uY2U=".into(),
        ct: "Y3Q=".into(),
        edek: "ZWRlaw==".into(),
        edek_nonce: "ZW4=".into(),
    }
}

#[test]
fn masked_value_strips_ciphertext() {
    let v = masked_value(&Value::Secret(ct()));
    assert_eq!(v, Value::String("***".into()));
}

#[test]
fn masked_value_keeps_plain_types() {
    for v in [
        Value::String("x".into()),
        Value::Int(1),
        Value::Float(Float::parse("1.5").unwrap()),
        Value::Bool(true),
        Value::Json("{\"a\":1}".into()),
        Value::Array(vec!["a".into()]),
    ] {
        assert_eq!(masked_value(&v), v);
    }
}

fn secret_event() -> PublishEvent {
    PublishEvent {
        project: ProjectId("p".into()),
        branch: BranchName("dev".into()),
        version: 3,
        ty: EventType::ValuePublish,
        structure_version: 1,
        comment: "c".into(),
        request_id: "r".into(),
        changes: vec![
            DiffEntry {
                group: "g".into(),
                key: "host".into(),
                kind: ChangeKind::Upsert,
                new_value: Some(Value::String("10.0.0.1".into())),
            },
            DiffEntry {
                group: "g".into(),
                key: "pass".into(),
                kind: ChangeKind::Upsert,
                new_value: Some(Value::Secret(ct())),
            },
        ],
        gray: false,
    }
}

#[test]
fn mask_event_removes_all_ciphertext() {
    let e = secret_event();
    let orig = e.clone();
    let masked = mask_event_for_wire(&e);
    assert!(matches!(orig.changes[1].new_value, Some(Value::Secret(_))));
    let ser: String = masked
        .changes
        .iter()
        .map(|d| value_json(d.new_value.as_ref().unwrap()))
        .collect();
    assert!(!ser.contains("edek"));
    assert!(!ser.contains("ciphertext"));
    assert!(!ser.contains("Y3Q="));
    assert!(ser.contains("***"));
    assert_eq!(masked.changes[0], orig.changes[0]);
}

#[test]
fn masking_twice_is_masking_once() {
    let once = mask_event_for_wire(&secret_event());
    assert_eq!(mask_event_for_wire(&once), once);
    assert_eq!(mask_diff_entry(&once.changes[1]), once.changes[1]);
    let gone = DiffEntry { group: "g".into(), key: "k".into(), kind: ChangeKind::Delete, new_value: None };
    assert_eq!(mask_diff_entry(&gone), gone);
}

// ---- values as JSON ----

fn members(json: &str) -> ValueMembers {
    let v: serde_json::Value = serde_json::from_str(json).unwrap();
    let text = |name: &str| v.get(name).and_then(|x| x.as_str()).map(String::from);
    ValueMembers {
        ty: text("type"),
        str_value: text("str_value"),
        int_value: v.get("int_value").and_then(|x| x.as_i64()),
        float_value: v.get("float_value").and_then(|x| Float::parse(&x.to_string())),
        bool_value: v.get("bool_value").and_then(|x| x.as_bool()),
        json_value: text("json_value"),
        list_value: v.get("list_value").and_then(|x| x.as_array()).map(|a| {
            a.iter().filter_map(|x| x.as_str().map(String::from)).collect()
        }),
        ciphertext: v.get("ciphertext").map(|x| {
            let s = |n: &str| x.get(n).and_then(|y| y.as_str()).unwrap_or_default().to_string();
            let n = |n: &str| x.get(n).and_then(|y| y.as_u64()).unwrap_or_default();
            Ciphertext {
                enc: s("enc"),
                v: n("v") as u32,
                dek_v: n("dek_v"),
                nonce: s("nonce"),
                ct: s("ct"),
                edek: s("edek"),
                edek_nonce: s("edek_nonce"),
            }
        }),
    }
}

#[test]
fn value_roundtrip_all_types() {
    let values = vec![
        Value::String("hello".into()),
        Value::Int(42),
        Value::Float(Float::parse("1.25").unwrap()),
        Value::Bool(true),
        Value::Json("{\"a\":1}".into()),
        Value::Array(vec!["x".into(), "y".into()]),
        Value::Secret(Ciphertext {
            enc: "aes-256-gcm".into(),
            v: 1,
            dek_v: 3,
            nonce: "MTIzNDU2Nzg5MDEy".into(),
            ct: "Y3Q=".into(),
            edek: "ZWRlaw==".into(),
            edek_nonce: "MTIzNDU2Nzg5MDEy".into(),
        }),
    ];
    for v in values {
        let json = value_json(&v);
        let back = value_from_members(members(&json)).unwrap();
        assert_eq!(v, back, "roundtrip failed for {json}");
    }
}

#[test]
fn members_that_are_missing() {
    let none = |ty: Option<&str>| ValueMembers {
        ty: ty.map(String::from),
        str_value: None,
        int_value: None,
        float_value: None,
        bool_value: None,
        json_value: None,
        list_value: None,
        ciphertext: None,
    };
    assert_eq!(value_from_members(none(Some("int"))), Some(Value::Int(0)));
    assert_eq!(value_from_members(none(Some("string"))), Some(Value::String("".into())));
    assert_eq!(value_from_members(none(Some("array"))), Some(Value::Array(vec![])));
    assert_eq!(value_from_members(none(Some("secret"))), None);
    assert_eq!(value_from_members(none(Some("other"))), None);
    assert_eq!(value_from_members(none(None)), None);
}

#[test]
fn floats_have_one_text() {
    assert_eq!(Float::parse("1.50").unwrap().text, "1.5");
    assert_eq!(Float::parse("2").unwrap().text, "2.0");
    assert!(Float::parse("x").is_none());
    assert!(Float::parse("NaN").is_none());
}

#[test]
fn types_of_values() {
    assert_eq!(Value::Int(1).value_type(), ValueType::Int);
    assert_eq!(Value::Json("1".into()).value_type(), ValueType::Json);
    assert_eq!(Value::Secret(ct()).value_type(), ValueType::Secret);
    assert_eq!(ValueType::Secret.word(), "secret");
    assert_eq!(ValueType::Array.word(), "array");
}

#[test]
fn a_new_branch_is_empty() {
    let b = BranchState::new(4);
    assert_eq!(b.active_version, 0);
    assert_eq!(b.structure_version, 4);
    assert!(b.value_draft.is_empty());
    assert_eq!(b.last_request_id, None);
}

#[test]
fn shared_items_as_json() {
    let item = SharedItem {
        group: "g".into(),
        key: "k\"".into(),
        ty: ValueType::Int,
        secret: false,
        required: true,
        value: Value::Int(-3),
        version: 2,
        description: None,
    };
    let json: serde_json::Value = serde_json::from_str(&defing::json::shared_json(&item)).unwrap();
    assert_eq!(json.get("key").unwrap().as_str().unwrap(), "k\"");
    assert_eq!(json.get("version").unwrap().as_u64().unwrap(), 2);
}

#[test]
fn keys_tell_what_stands_under_them() {
    for (key, kind) in [
        ("p/order", EntryKind::Project),
        ("p/order/struct", EntryKind::Structure),
        ("p/order/struct-draft", EntryKind::StructureDraft),
        ("p/order/refs/g", EntryKind::Ref),
        ("p/order/refs/g/k", EntryKind::Ref),
        ("p/order/b/dev/state", EntryKind::Branch),
        ("p/order/b/dev/v/00000000000000000001", EntryKind::Version),
        ("p/order/b/dev/v/00000000000000000001/snap", EntryKind::Snapshot),
        ("p/order/b/dev/v/00000000000000000001/diff", EntryKind::Diff),
        ("p/order/other", EntryKind::Raw),
        ("sh/g/k", EntryKind::Shared),
        ("sh-draft/g/k", EntryKind::Shared),
        ("sess/admin", EntryKind::Session),
        ("sess/admin/s1", EntryKind::Session),
        ("sess/pa/alice", EntryKind::Session),
        ("sess/admin-pw", EntryKind::Text),
        ("adm/pa/alice", EntryKind::Account),
        ("audit/seq", EntryKind::Counter),
        ("audit/00000000000000000001", EntryKind::Audit),
        ("idx/pname/order", EntryKind::Text),
        ("idx/ref/g/k/order/g/k", EntryKind::Text),
        ("unknown", EntryKind::Raw),
    ] {
        assert_eq!(kind_of_key(key), kind, "{key}");
    }
    let (p, b) = (ProjectId::from("order"), BranchName::from("dev"));
    assert_eq!(kind_of_key(&snapshot_key(&p, &b, 3)), EntryKind::Snapshot);
    assert_eq!(kind_of_key(&branch_state_key(&p, &b)), EntryKind::Branch);
}

#[test]
fn texts_are_escaped_in_json() {
    let v = Value::String("a\"\\/\u{8}\t\n\u{c}\r\u{0}\u{1f}\u{7f}\u{e9}".into());
    assert_eq!(
        value_json(&v),
        "{\"type\":\"string\",\"str_value\":\"a\\\"\\\\/\\b\\t\\n\\f\\r\\u0000\\u001f\u{7f}\u{e9}\"}"
    );
}
