use atomic_lib::commit::Commit;
use atomic_lib::errors::{AtomicError, AuthError};
use atomic_lib::resource::PropVal;
use atomic_lib::Store;

const SHORTNAME: &str = "https://atomicdata.dev/properties/shortname";
const PARENT: &str = "https://atomicdata.dev/properties/parent";
const WRITE: &str = "https://atomicdata.dev/properties/write";
const PUBLIC_KEY: &str = "https://atomicdata.dev/properties/publicKey";
const IS_A: &str = "https://atomicdata.dev/properties/isA";

const KEY1: &str = "first-agent-key";
const KEY2: &str = "another-key";

/// A store with an agent hierarchy:
/// _:root   grants write to _:agent2 only
/// _:mid    child of _:root, grants write to _:agent1
/// _:leaf   child of _:mid, no list of its own
/// _:other  child of _:root, no list of its own
fn hierarchy_store() -> Store {
    let mut store = Store::init();
    store.load_default();
    let mut ad3 = String::new();
    ad3.push_str(&format!("[\"_:agent1\",\"{}\",\"{}\"]\n", PUBLIC_KEY, KEY1));
    ad3.push_str(&format!("[\"_:agent2\",\"{}\",\"{}\"]\n", PUBLIC_KEY, KEY2));
    ad3.push_str(&format!("[\"_:root\",\"{}\",\"[\\\"_:agent2\\\"]\"]\n", WRITE));
    ad3.push_str(&format!("[\"_:mid\",\"{}\",\"_:root\"]\n", PARENT));
    ad3.push_str(&format!("[\"_:mid\",\"{}\",\"[\\\"_:agent1\\\"]\"]\n", WRITE));
    ad3.push_str(&format!("[\"_:leaf\",\"{}\",\"_:mid\"]\n", PARENT));
    ad3.push_str(&format!("[\"_:leaf\",\"{}\",\"leaf\"]\n", SHORTNAME));
    ad3.push_str(&format!("[\"_:other\",\"{}\",\"_:root\"]\n", PARENT));
    store.parse_ad3(&ad3).unwrap();
    store.validate_store().unwrap();
    store
}

fn set_shortname(value: &str) -> Vec<PropVal> {
    vec![PropVal { property: SHORTNAME.to_string(), value: value.to_string() }]
}

#[test]
fn commit_applies_and_logs() {
    let mut store = hierarchy_store();
    let commit = Commit::new_signed(
        "_:leaf".to_string(),
        set_shortname("renamed"),
        Vec::new(),
        false,
        "_:agent1".to_string(),
        100,
        KEY1,
    );
    let resp = store.apply_commit(commit).unwrap();
    assert_eq!(resp.subject, "_:leaf");
    assert_eq!(resp.created_at, 100);
    let leaf = store.get_resource_string("_:leaf").unwrap();
    assert_eq!(leaf.get(SHORTNAME).unwrap(), "renamed");
    // the parent link survived the commit
    assert_eq!(leaf.get(PARENT).unwrap(), "_:mid");
}

#[test]
fn hierarchy_override() {
    // _:agent1 is not in the root's write list, but an intermediate
    // ancestor grants it write: subjects under that ancestor accept its
    // commits, unrelated subjects under the root refuse them.
    let mut store = hierarchy_store();
    let allowed = Commit::new_signed(
        "_:leaf".to_string(),
        set_shortname("by-agent-one"),
        Vec::new(),
        false,
        "_:agent1".to_string(),
        100,
        KEY1,
    );
    store.apply_commit(allowed).unwrap();

    let denied = Commit::new_signed(
        "_:other".to_string(),
        set_shortname("by-agent-one"),
        Vec::new(),
        false,
        "_:agent1".to_string(),
        101,
        KEY1,
    );
    let err = store.apply_commit(denied).unwrap_err();
    assert!(matches!(
        err,
        AtomicError::Authorization(AuthError::NoWritePermission)
    ));
    // _:agent2 is granted at the root and reaches _:other through it
    let ok2 = Commit::new_signed(
        "_:other".to_string(),
        set_shortname("by-agent-two"),
        Vec::new(),
        false,
        "_:agent2".to_string(),
        102,
        KEY2,
    );
    store.apply_commit(ok2).unwrap();
}

#[test]
fn signature_tampering_rejected() {
    let mut store = hierarchy_store();
    let mut commit = Commit::new_signed(
        "_:leaf".to_string(),
        set_shortname("honest"),
        Vec::new(),
        false,
        "_:agent1".to_string(),
        100,
        KEY1,
    );
    // flip part of the signed payload after signing
    commit.set[0].value = "forged".to_string();
    let before = store.get_resource_string("_:leaf").unwrap();
    let err = store.apply_commit(commit).unwrap_err();
    assert!(matches!(
        err,
        AtomicError::Authorization(AuthError::InvalidSignature)
    ));
    // no state change
    let after = store.get_resource_string("_:leaf").unwrap();
    assert_eq!(after.get(SHORTNAME).unwrap(), before.get(SHORTNAME).unwrap());
    assert_eq!(after.get(SHORTNAME).unwrap(), "leaf");
}

#[test]
fn wrong_key_rejected() {
    let mut store = hierarchy_store();
    let commit = Commit::new_signed(
        "_:leaf".to_string(),
        set_shortname("sneaky"),
        Vec::new(),
        false,
        "_:agent1".to_string(),
        100,
        KEY2, // not agent1's key
    );
    let err = store.apply_commit(commit).unwrap_err();
    assert!(matches!(
        err,
        AtomicError::Authorization(AuthError::InvalidSignature)
    ));
}

#[test]
fn unknown_signer_rejected() {
    let mut store = hierarchy_store();
    let commit = Commit::new_signed(
        "_:leaf".to_string(),
        set_shortname("ghost"),
        Vec::new(),
        false,
        "_:nobody".to_string(),
        100,
        KEY1,
    );
    let err = store.apply_commit(commit).unwrap_err();
    assert!(matches!(
        err,
        AtomicError::Authorization(AuthError::UnknownSigner)
    ));
}

#[test]
fn stale_commit_rejected() {
    let mut store = hierarchy_store();
    let newer = Commit::new_signed(
        "_:leaf".to_string(),
        set_shortname("newer"),
        Vec::new(),
        false,
        "_:agent1".to_string(),
        100,
        KEY1,
    );
    store.apply_commit(newer).unwrap();
    let older = Commit::new_signed(
        "_:leaf".to_string(),
        set_shortname("older"),
        Vec::new(),
        false,
        "_:agent1".to_string(),
        50,
        KEY1,
    );
    let err = store.apply_commit(older).unwrap_err();
    assert!(matches!(err, AtomicError::Authorization(AuthError::Stale)));
    let leaf = store.get_resource_string("_:leaf").unwrap();
    assert_eq!(leaf.get(SHORTNAME).unwrap(), "newer");
}

#[test]
fn invalid_result_leaves_store_unchanged() {
    // a commit whose resulting resource fails validation is refused in
    // full: the prior state of the subject is untouched
    let mut store = hierarchy_store();
    let commit = Commit::new_signed(
        "_:leaf".to_string(),
        set_shortname("Not A Slug!"),
        Vec::new(),
        false,
        "_:agent1".to_string(),
        100,
        KEY1,
    );
    let err = store.apply_commit(commit).unwrap_err();
    assert!(matches!(err, AtomicError::Validation(_)));
    let leaf = store.get_resource_string("_:leaf").unwrap();
    assert_eq!(leaf.get(SHORTNAME).unwrap(), "leaf");
    store.validate_store().unwrap();
}

#[test]
fn destroy_removes_subject() {
    let mut store = hierarchy_store();
    let commit = Commit::new_signed(
        "_:leaf".to_string(),
        Vec::new(),
        Vec::new(),
        true,
        "_:agent1".to_string(),
        100,
        KEY1,
    );
    store.apply_commit(commit).unwrap();
    assert!(store.get_resource_string("_:leaf").is_none());
}

#[test]
fn remove_then_set_in_one_commit() {
    let mut store = hierarchy_store();
    let commit = Commit::new_signed(
        "_:leaf".to_string(),
        set_shortname("kept"),
        vec![SHORTNAME.to_string()],
        false,
        "_:agent1".to_string(),
        100,
        KEY1,
    );
    store.apply_commit(commit).unwrap();
    // the set wins over the remove of the same property
    let leaf = store.get_resource_string("_:leaf").unwrap();
    assert_eq!(leaf.get(SHORTNAME).unwrap(), "kept");
}

#[test]
fn missing_required_property_fails_validation() {
    // Agent requires publicKey: declaring the class without the property
    // is rejected, with it the store is accepted again.
    let mut store = Store::init();
    store.load_default();
    let ad3 = format!(
        "[\"_:a\",\"{isa}\",\"[\\\"https://atomicdata.dev/classes/Agent\\\"]\"]",
        isa = IS_A
    );
    store.parse_ad3(&ad3).unwrap();
    let err = store.validate_store().unwrap_err();
    assert!(matches!(err, AtomicError::Validation(_)));
    let fix = format!("[\"_:a\",\"{pk}\",\"somekey\"]", pk = PUBLIC_KEY);
    store.parse_ad3(&fix).unwrap();
    store.validate_store().unwrap();
}

#[test]
fn default_ontology_is_idempotent() {
    let mut once = Store::init();
    once.load_default();
    let mut twice = Store::init();
    twice.load_default();
    twice.load_default();
    assert_eq!(once.to_ad3_string(), twice.to_ad3_string());
}

#[test]
fn payload_covers_timestamp() {
    // two commits differing only in created_at have different payloads
    let a = Commit::new_signed(
        "_:x".to_string(), Vec::new(), Vec::new(), false,
        "_:agent1".to_string(), 1, KEY1,
    );
    let b = Commit::new_signed(
        "_:x".to_string(), Vec::new(), Vec::new(), false,
        "_:agent1".to_string(), 2, KEY1,
    );
    assert_ne!(
        atomic_lib::commit::commit_payload_string(&a),
        atomic_lib::commit::commit_payload_string(&b)
    );
    assert!(atomic_lib::commit::commit_payload_string(&a).contains("_:x"));
}

#[test]
fn parent_cycle_denies_write() {
    // a cycle in the parent chain can never reach a write list: the
    // bounded walk fails closed
    let mut store = Store::init();
    store.load_default();
    let mut ad3 = String::new();
    ad3.push_str(&format!("[\"_:agent1\",\"{}\",\"{}\"]\n", PUBLIC_KEY, KEY1));
    ad3.push_str(&format!("[\"_:a\",\"{}\",\"_:b\"]\n", PARENT));
    ad3.push_str(&format!("[\"_:b\",\"{}\",\"_:a\"]\n", PARENT));
    store.parse_ad3(&ad3).unwrap();
    let commit = Commit::new_signed(
        "_:a".to_string(),
        set_shortname("loop-bound"),
        Vec::new(),
        false,
        "_:agent1".to_string(),
        100,
        KEY1,
    );
    let err = store.apply_commit(commit).unwrap_err();
    assert!(matches!(
        err,
        AtomicError::Authorization(AuthError::NoWritePermission)
    ));
}

#[test]
fn equal_timestamp_is_not_stale() {
    // created_at equal to the last applied commit is still accepted
    let mut store = hierarchy_store();
    let first = Commit::new_signed(
        "_:leaf".to_string(),
        set_shortname("first"),
        Vec::new(),
        false,
        "_:agent1".to_string(),
        100,
        KEY1,
    );
    store.apply_commit(first).unwrap();
    let second = Commit::new_signed(
        "_:leaf".to_string(),
        set_shortname("second"),
        Vec::new(),
        false,
        "_:agent1".to_string(),
        100,
        KEY1,
    );
    store.apply_commit(second).unwrap();
    let leaf = store.get_resource_string("_:leaf").unwrap();
    assert_eq!(leaf.get(SHORTNAME).unwrap(), "second");
}
