//! Encryption, the ring of keys, tokens, and the encryption of what is submitted.
use defing::command::{Command, DraftUpdateItem};
use defing::crypto::{
    load_master_key, load_ring, parse_new_key, ring_bytes, ring_file_name, rotation, starting_ring,
    Cipher, KeyRing,
};
use defing::error::ErrorKind;
use defing::jobs::{AuditRetention, RewrapDeks, VersionRetention};
use defing::model::{
    AuditEntry, BranchName, Ciphertext, GroupDef, ItemDef, ProjectId, PublishEvent, EventType, SharedItem,
    Value, ValueType,
};
use defing::publish::{
    encrypt_secret_updates, encrypt_updates, publish_outcome, published_version, structure_outcome,
};
use defing::state::StateMachine;
use defing::store::InMemoryStore;
use defing::token::{hex_text, new_token, password_hash, token_hash};
use defing::write::WriteOutcome;

fn random_kek() -> [u8; 32] {
    let text = Cipher::generate_master_key();
    load_master_key(Some(&text), None).unwrap().unwrap()
}

#[test]
fn roundtrip_and_wire_format() {
    let cipher = Cipher::new(random_kek());
    let ct = cipher.encrypt_secret(b"redis://secret@host:6379").unwrap();
    assert_eq!(ct.enc, "aes-256-gcm");
    assert_eq!(ct.v, 1);
    let plain = cipher.decrypt_secret(&ct).unwrap();
    assert_eq!(plain, b"redis://secret@host:6379");
    let ct2 = cipher.encrypt_secret(b"redis://secret@host:6379").unwrap();
    assert_ne!(ct.ct, ct2.ct);
    let json = defing::json::value_json(&Value::Secret(ct));
    let outer: serde_json::Value = serde_json::from_str(&json).unwrap();
    let inner = outer.get("ciphertext").unwrap();
    let text = |n: &str| inner.get(n).unwrap().as_str().unwrap().to_string();
    let back = Ciphertext {
        enc: text("enc"),
        v: inner.get("v").unwrap().as_u64().unwrap() as u32,
        dek_v: inner.get("dek_v").unwrap().as_u64().unwrap(),
        nonce: text("nonce"),
        ct: text("ct"),
        edek: text("edek"),
        edek_nonce: text("edek_nonce"),
    };
    assert_eq!(cipher.decrypt_secret(&back).unwrap(), plain);
}

#[test]
fn mask_does_not_leak() {
    let cipher = Cipher::new(random_kek());
    let ct = cipher.encrypt_secret(b"super-secret").unwrap();
    let masked = cipher.mask(&ct, 2);
    assert!(!masked.contains("super"));
    assert!(masked.contains("secret"));
    assert_eq!(masked, "{secret:**}");
    assert_eq!(cipher.mask(&ct, 0), "{secret:*}");
}

#[test]
fn master_key_gen_and_load() {
    let k = Cipher::generate_master_key();
    let loaded = load_master_key(Some(&k), None).unwrap().unwrap();
    assert_eq!(loaded.len(), 32);
    assert!(load_master_key(None, None).unwrap().is_none());
}

#[test]
fn master_keys_that_do_not_fit() {
    assert!(load_master_key(Some("!!!"), None).unwrap_err().text().contains("DSH_MASTER_KEY base64: "));
    let short = load_master_key(Some("AAAA"), None).unwrap_err();
    assert_eq!(short.text(), "crypto: master key must be 32 bytes");
    assert_eq!(load_master_key(None, Some(vec![7u8; 32])).unwrap(), Some([7u8; 32]));
    assert!(load_master_key(None, Some(vec![7u8; 31])).is_err());
}

fn kek(n: u8) -> [u8; 32] {
    [n; 32]
}

#[test]
fn rotate_old_data_still_decrypts_cry002() {
    let mut cipher = Cipher::new(kek(1));
    let old_ct = cipher.encrypt_secret(b"secret-v1").unwrap();
    assert_eq!(old_ct.dek_v, 1);

    cipher.rotate_master_key(kek(2));
    let new_ct = cipher.encrypt_secret(b"secret-v2").unwrap();
    assert_eq!(new_ct.dek_v, 2);
    assert_eq!(cipher.decrypt_secret(&old_ct).unwrap(), b"secret-v1");
    assert_eq!(cipher.decrypt_secret(&new_ct).unwrap(), b"secret-v2");

    cipher.rotate_master_key(kek(3));
    assert_eq!(cipher.decrypt_secret(&old_ct).unwrap(), b"secret-v1");
    assert_eq!(cipher.decrypt_secret(&new_ct).unwrap(), b"secret-v2");
    let latest = cipher.encrypt_secret(b"secret-v3").unwrap();
    assert_eq!(latest.dek_v, 3);
}

#[test]
fn rewrap_updates_edek_keeps_data() {
    let mut cipher = Cipher::new(kek(1));
    let ct = cipher.encrypt_secret(b"stable-data").unwrap();
    assert_eq!(ct.dek_v, 1);
    let old_edek = ct.edek.clone();

    cipher.rotate_master_key(kek(2));
    let rw = cipher.rewrap_dek(&ct).unwrap();
    assert_eq!(rw.dek_v, 2);
    assert_eq!(rw.ct, ct.ct);
    assert_eq!(rw.nonce, ct.nonce);
    assert_ne!(rw.edek, old_edek);
    assert_eq!(cipher.decrypt_secret(&rw).unwrap(), b"stable-data");
}

#[test]
fn keyring_ring_file_roundtrip() {
    let mut ring = KeyRing::new(kek(1));
    ring.push(kek(2));
    let bytes = ring_bytes(&ring);
    let loaded = load_ring(Some(&bytes)).unwrap();
    assert_eq!(loaded.len(), 2);
    assert_eq!(loaded[0], kek(1));
    assert_eq!(loaded[1], kek(2));
    let cipher = Cipher::with_keyring(KeyRing::from_entries(loaded));
    assert_eq!(cipher.keyring().generation(), 2);
}

#[test]
fn rings_that_do_not_fit() {
    assert!(load_ring(None).unwrap().is_empty());
    assert!(load_ring(Some(b"nonsense")).unwrap_err().text().contains("parse ring: "));
    assert!(load_ring(Some(b"[\"?\"]")).unwrap_err().text().contains("ring key: "));
    assert_eq!(load_ring(Some(b"[\"AAAA\"]")).unwrap_err().text(), "crypto: ring key must be 32 bytes");
    assert_eq!(ring_file_name("master.key"), "master.key.ring.json");
}

#[test]
fn the_ring_at_the_start_has_the_master_key_once() {
    let r = starting_ring(kek(1), vec![kek(1), kek(2), kek(1), kek(3)]);
    assert_eq!(r.entries(), &vec![kek(1), kek(2), kek(3)]);
    assert_eq!(r.generation(), 3);
    assert_eq!(r.get(1).unwrap(), &kek(1));
    assert!(r.get(0).is_none() && r.get(4).is_none());
    assert_eq!(r.current(), &kek(3));
    assert!(r.holds(&kek(2)) && !r.holds(&kek(9)));
}

#[test]
fn keys_of_requests() {
    let text = Cipher::generate_master_key();
    assert_eq!(Some(parse_new_key(&text).unwrap()), load_master_key(Some(&text), None).unwrap());
    let e = parse_new_key("AAAA").unwrap_err();
    assert_eq!((e.kind, e.message.as_str()), (ErrorKind::Validation, "new_key must be 32 bytes"));
    assert!(parse_new_key("?").unwrap_err().message.contains("new_key base64: "));
}

#[test]
fn ciphertexts_that_cannot_be_read() {
    let cipher = Cipher::new(kek(1));
    let good = cipher.encrypt_secret(b"x").unwrap();
    let mut other = good.clone();
    other.dek_v = 9;
    // A generation that the ring does not have is read with the current key.
    assert_eq!(cipher.decrypt_secret(&other).unwrap(), b"x");
    assert!(Cipher::new(kek(2)).decrypt_secret(&good).is_err());
    let mut short = good.clone();
    short.nonce = "AAAA".into();
    assert!(cipher.try_decrypt_secret(&short).is_none());
    short = good.clone();
    short.edek_nonce = "AAAA".into();
    assert!(cipher.try_rewrap_dek(&short).is_none());
    assert!(cipher.try_decrypt_secret(&good).unwrap().is_ok());
    let mut broken = good.clone();
    broken.ct = "?".into();
    assert!(cipher.decrypt_secret(&broken).unwrap_err().text().contains("base64: "));
}

#[test]
fn a_master_key_travels_under_another() {
    let wrapped = Cipher::wrap_master_key(&kek(1), &kek(2)).unwrap();
    assert_eq!(Cipher::unwrap_master_key(&kek(1), &wrapped).unwrap(), kek(2));
    assert!(Cipher::unwrap_master_key(&kek(3), &wrapped).is_err());
    assert!(Cipher::unwrap_master_key(&kek(1), &vec![0u8; 5]).is_err());

    let ring = KeyRing::from_entries(vec![kek(9), kek(1)]);
    assert_eq!(rotation(&ring, &vec![], &wrapped), Some(kek(2)));
    assert_eq!(rotation(&ring, &vec![5u8; 32], &vec![]), Some(kek(5)));
    // A key that is already there, one of another length, and one that no key opens.
    assert_eq!(rotation(&ring, &kek(9).to_vec(), &vec![]), None);
    assert_eq!(rotation(&ring, &vec![5u8; 31], &vec![]), None);
    assert_eq!(rotation(&KeyRing::new(kek(7)), &vec![], &wrapped), None);
}

#[test]
fn tokens_and_hashes() {
    assert_eq!(hex_text(&[0x00, 0x9f, 0xff]), "009fff");
    assert_eq!(
        token_hash("abc"),
        "ba7816bf8f01cfea414140de5dae2223b00361a396177a9cb410ff61f20015ad"
    );
    assert_eq!(password_hash("ab", "c"), token_hash("abc"));
    let a = new_token();
    assert_eq!(a.len(), 32);
    assert_ne!(a, new_token());
}

fn item(key: &str, ty: ValueType, required: bool) -> ItemDef {
    ItemDef {
        key: key.into(),
        ty,
        required,
        secret: ty == ValueType::Secret,
        validate: None,
        description: None,
        shared_ref: None,
    }
}

fn sm_with_structure() -> StateMachine<InMemoryStore> {
    let mut sm = StateMachine::new(InMemoryStore::new());
    sm.apply(&Command::ProjectCreate { name: "p".into(), operator: String::new(), ts: 0 }, 1)
        .unwrap();
    sm.apply(
        &Command::StructureDraftSet {
            project: "p".into(),
            base_version: 1,
            groups: vec![GroupDef {
                name: "g".into(),
                items: vec![
                    item("host", ValueType::String, true),
                    item("pass", ValueType::Secret, false),
                ],
            }],
            operator: String::new(),
        },
        2,
    )
    .unwrap();
    sm.apply(
        &Command::PublishStructure {
            project: "p".into(),
            comment: "s".into(),
            request_id: "s1".into(),
            operator: String::new(),
            ts: 0,
        },
        3,
    )
    .unwrap();
    sm
}

fn update(key: &str, value: Value) -> DraftUpdateItem {
    DraftUpdateItem { group: "g".into(), key: key.into(), value }
}

#[test]
fn encrypt_secret_updates_encrypts_only_secret_items() {
    let sm = sm_with_structure();
    let cipher = Cipher::new([7u8; 32]);
    let updates = vec![
        update("host", Value::String("h".into())),
        update("pass", Value::String("s3cret".into())),
    ];
    let updates =
        encrypt_secret_updates(&sm, Some(&cipher), &ProjectId("p".into()), updates).unwrap();
    assert!(matches!(updates[0].value, Value::String(_)));
    assert!(matches!(updates[1].value, Value::Secret(_)));
    match &updates[1].value {
        Value::Secret(ct) => assert_eq!(cipher.decrypt_secret(ct).unwrap(), b"s3cret"),
        _ => unreachable!(),
    }
}

#[test]
fn encrypt_without_cipher_is_noop() {
    let sm = sm_with_structure();
    let updates = vec![update("pass", Value::String("plain".into()))];
    let updates = encrypt_secret_updates(&sm, None, &ProjectId("p".into()), updates).unwrap();
    assert!(matches!(updates[0].value, Value::String(_)));
}

#[test]
fn only_texts_of_secret_items_are_encrypted() {
    let cipher = Cipher::new([7u8; 32]);
    let groups = vec![GroupDef { name: "g".into(), items: vec![item("pass", ValueType::Secret, false)] }];
    let out = encrypt_updates(&cipher, &groups, vec![update("pass", Value::Int(1)), update("x", Value::String("y".into()))])
        .unwrap();
    assert_eq!(out[0].value, Value::Int(1));
    assert_eq!(out[1].value, Value::String("y".into()));
    // A project that is not there has no secrets.
    let sm = StateMachine::new(InMemoryStore::new());
    let out = encrypt_secret_updates(
        &sm,
        Some(&cipher),
        &ProjectId("none".into()),
        vec![update("pass", Value::String("plain".into()))],
    )
    .unwrap();
    assert!(matches!(out[0].value, Value::String(_)));
}

fn event(branch: &str, version: u64) -> PublishEvent {
    PublishEvent {
        project: ProjectId("p".into()),
        branch: BranchName(branch.into()),
        version,
        ty: EventType::StructurePublish,
        structure_version: 2,
        comment: "c".into(),
        request_id: "r".into(),
        changes: vec![],
        gray: false,
    }
}

#[test]
fn what_a_publish_reports() {
    let o = publish_outcome(WriteOutcome { version: 4, events: vec![event("dev", 4)] }, Some(9));
    assert_eq!(o.version, 4);
    assert!(o.changes.is_empty());
    let o = publish_outcome(WriteOutcome { version: 0, events: vec![] }, Some(9));
    assert_eq!(o.version, 9);
    assert_eq!(published_version(0, None), 0);
    assert_eq!(published_version(3, None), 3);
    let o = structure_outcome(&vec![event("dev", 2), event("prod", 5)]);
    assert_eq!(o.affected, vec![("dev".to_string(), 2), ("prod".to_string(), 5)]);
}

// ---- jobs ----

#[test]
fn retention_keeps_active_and_recent() {
    let mut sm = StateMachine::new(InMemoryStore::new());
    sm.apply(
        &Command::ProjectCreate {
            name: "p".into(),
            operator: String::new(),
            ts: 0,
        },
        1,
    )
    .unwrap();
    sm.apply(
        &Command::StructureDraftSet {
            project: "p".into(),
            base_version: 1,
            groups: vec![GroupDef {
                name: "g".into(),
                items: vec![item("k", ValueType::String, true)],
            }],
            operator: String::new(),
        },
        2,
    )
    .unwrap();
    sm.apply(
        &Command::PublishStructure {
            project: "p".into(),
            comment: "s".into(),
            request_id: "s1".into(),
            operator: String::new(),
            ts: 0,
        },
        3,
    )
    .unwrap();
    for i in 0..5 {
        sm.apply(
            &Command::DraftUpdate {
                project: "p".into(),
                branch: BranchName("dev".into()),
                updates: vec![DraftUpdateItem {
                    group: "g".into(),
                    key: "k".into(),
                    value: Value::String(format!("v{i}")),
                }],
                deletes: vec![],
                operator: String::new(),
                ts: 0,
            },
            10 + i,
        )
        .unwrap();
        sm.apply(
            &Command::Publish {
                project: "p".into(),
                branch: BranchName("dev".into()),
                comment: "c".into(),
                request_id: format!("r{i}"),
                operator: String::new(),
                ts: 0,
            },
            20 + i,
        )
        .unwrap();
    }
    let total = sm
        .version_history(&"p".into(), &BranchName("dev".into()))
        .unwrap()
        .len();
    assert!(total >= 6);

    let removed = sm
        .prune_versions(&"p".into(), &BranchName("dev".into()), 2)
        .unwrap();
    assert!(removed > 0);
    let hist = sm
        .version_history(&"p".into(), &BranchName("dev".into()))
        .unwrap();
    assert!(hist.len() <= 3);
    let cfg = sm
        .get_config(&"p".into(), &BranchName("dev".into()), 0)
        .unwrap();
    assert_eq!(cfg.version, 6);
    assert_eq!(
        cfg.groups.get("g").unwrap().get("k").unwrap(),
        &Value::String("v4".into())
    );
}

#[test]
fn rewrap_job_bumps_generation_and_keeps_data() {
    let mut cipher = Cipher::new([1u8; 32]);
    let mut sm = sm_with_structure();
    let ct = cipher.encrypt_secret(b"job-secret").unwrap();
    sm.apply(
        &Command::DraftUpdate {
            project: "p".into(),
            branch: BranchName("dev".into()),
            updates: vec![
                update("host", Value::String("h".into())),
                update("pass", Value::Secret(ct)),
            ],
            deletes: vec![],
            operator: String::new(),
            ts: 0,
        },
        4,
    )
    .unwrap();
    sm.apply(
        &Command::Publish {
            project: "p".into(),
            branch: BranchName("dev".into()),
            comment: "v".into(),
            request_id: "r1".into(),
            operator: String::new(),
            ts: 0,
        },
        5,
    )
    .unwrap();
    sm.apply(
        &Command::SharedDraftUpdate {
            item: SharedItem {
                group: "g".into(),
                key: "tok".into(),
                ty: ValueType::Secret,
                secret: true,
                required: false,
                value: Value::Secret(cipher.encrypt_secret(b"shared-job").unwrap()),
                version: 0,
                description: None,
            },
            operator: String::new(),
        },
        6,
    )
    .unwrap();
    sm.apply(
        &Command::SharedPublish {
            comment: "c".into(),
            request_id: "sp".into(),
            operator: String::new(),
            ts: 0,
        },
        7,
    )
    .unwrap();

    cipher.rotate_master_key([2u8; 32]);
    let job = RewrapDeks { cipher: Cipher::with_keyring(cipher.keyring()) };
    assert_eq!(job.run(&mut sm).unwrap(), 2);

    let cfg = sm
        .get_config(&"p".into(), &BranchName("dev".into()), 0)
        .unwrap();
    match cfg.groups.get("g").unwrap().get("pass").unwrap() {
        Value::Secret(ct2) => {
            assert_eq!(ct2.dek_v, 2);
            assert_eq!(cipher.decrypt_secret(ct2).unwrap(), b"job-secret");
        }
        _ => panic!("expected secret"),
    }
    // Nothing is left to do.
    assert_eq!(job.run(&mut sm).unwrap(), 0);
}

#[test]
fn jobs_have_names_and_intervals() {
    let v = VersionRetention { keep: 2 };
    assert_eq!((v.name(), v.interval()), ("version-retention", 60));
    let a = AuditRetention { keep: 2 };
    assert_eq!((a.name(), a.interval()), ("audit-retention", 3600));
    let r = RewrapDeks { cipher: Cipher::new([1u8; 32]) };
    assert_eq!((r.name(), r.interval()), ("rewrap-deks", 300));
}

#[test]
fn retention_jobs_prune() {
    let mut sm = sm_with_structure();
    for i in 0..4 {
        sm.apply(
            &Command::AuditAppend {
                entry: AuditEntry {
                    seq: 0,
                    ts: i,
                    operator: "admin".into(),
                    action: "a".into(),
                    project: None,
                    branch: None,
                    version: None,
                    request_id: None,
                    detail: "{}".into(),
                },
            },
            10 + i,
        )
        .unwrap();
        sm.apply(
            &Command::DraftUpdate {
                project: "p".into(),
                branch: BranchName("dev".into()),
                updates: vec![update("host", Value::String(format!("h{i}")))],
                deletes: vec![],
                operator: String::new(),
                ts: 0,
            },
            20,
        )
        .unwrap();
        sm.apply(
            &Command::Publish {
                project: "p".into(),
                branch: BranchName("dev".into()),
                comment: "c".into(),
                request_id: format!("r{i}"),
                operator: String::new(),
                ts: 0,
            },
            21,
        )
        .unwrap();
    }
    AuditRetention { keep: 1 }.run(&mut sm).unwrap();
    assert_eq!(sm.get_audit(None, None, None, 10).unwrap().len(), 1);
    VersionRetention { keep: 1 }.run(&mut sm).unwrap();
    let hist = sm.version_history(&"p".into(), &BranchName("dev".into())).unwrap();
    assert_eq!(hist.iter().map(|r| r.no).collect::<Vec<_>>(), vec![1, 5]);
    assert_eq!(sm.get_config(&"p".into(), &BranchName("dev".into()), 0).unwrap().version, 5);
}
