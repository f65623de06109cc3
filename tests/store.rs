use secure_store::capability::{detect, ProbeOutcome};
use secure_store::error::ErrorKind;
use secure_store::platform::Platform;
use secure_store::store::CredentialStore;

fn ready_store() -> CredentialStore {
    CredentialStore::new(detect(Platform::MacOs, ProbeOutcome::Available, false))
}

#[test]
fn put_get_delete_scenario() {
    let mut store = ready_store();
    assert!(store.put("app1", "user1", b"topsecret").is_ok());
    assert_eq!(store.get("app1", "user1").unwrap(), Some(b"topsecret".to_vec()));
    assert!(store.delete("app1", "user1").is_ok());
    assert_eq!(store.get("app1", "user1").unwrap(), None);
    assert!(store.delete("app1", "user1").is_ok());
}

#[test]
fn round_trip_binary_secret() {
    let mut store = ready_store();
    let secret: Vec<u8> = vec![0, 255, 1, 128, 0, 7];
    store.put("svc", "acct", &secret).unwrap();
    assert_eq!(store.get("svc", "acct").unwrap(), Some(secret));
}

#[test]
fn round_trip_empty_secret() {
    let mut store = ready_store();
    store.put("svc", "acct", b"").unwrap();
    assert_eq!(store.get("svc", "acct").unwrap(), Some(Vec::new()));
}

#[test]
fn delete_missing_succeeds() {
    let mut store = ready_store();
    assert!(store.delete("nobody", "nothing").is_ok());
}

#[test]
fn get_missing_is_none() {
    let store = ready_store();
    assert_eq!(store.get("nobody", "nothing").unwrap(), None);
}

#[test]
fn overwrite_replaces_whole_secret() {
    let mut store = ready_store();
    store.put("svc", "acct", b"a much longer old secret").unwrap();
    assert_eq!(store.get("svc", "acct").unwrap(), Some(b"a much longer old secret".to_vec()));
    store.put("svc", "acct", b"new").unwrap();
    assert_eq!(store.get("svc", "acct").unwrap(), Some(b"new".to_vec()));
}

#[test]
fn keys_are_independent() {
    let mut store = ready_store();
    store.put("svc", "alice", b"one").unwrap();
    store.put("svc", "bob", b"two").unwrap();
    store.put("other", "alice", b"three").unwrap();
    store.delete("svc", "alice").unwrap();
    assert_eq!(store.get("svc", "alice").unwrap(), None);
    assert_eq!(store.get("svc", "bob").unwrap(), Some(b"two".to_vec()));
    assert_eq!(store.get("other", "alice").unwrap(), Some(b"three".to_vec()));
}

#[test]
fn list_services_each_once() {
    let mut store = ready_store();
    store.put("svc", "alice", b"one").unwrap();
    store.put("svc", "bob", b"two").unwrap();
    store.put("other", "alice", b"three").unwrap();
    let mut names = store.list_services().unwrap();
    names.sort();
    assert_eq!(names, vec!["other".to_string(), "svc".to_string()]);
}

#[test]
fn unavailable_store_fails_every_operation() {
    let mut store = CredentialStore::new(detect(Platform::Unknown, ProbeOutcome::Available, true));
    assert_eq!(store.put("a", "b", b"c").unwrap_err().kind, ErrorKind::Unavailable);
    assert_eq!(store.get("a", "b").unwrap_err().kind, ErrorKind::Unavailable);
    assert_eq!(store.delete("a", "b").unwrap_err().kind, ErrorKind::Unavailable);
    assert_eq!(store.list_services().unwrap_err().kind, ErrorKind::Unavailable);
}

#[test]
fn store_keeps_its_report() {
    let mut store = CredentialStore::new(detect(Platform::Linux, ProbeOutcome::Unavailable, true));
    store.put("a", "b", b"c").unwrap();
    store.delete("a", "b").unwrap();
    let report = store.capability();
    assert_eq!(report.backend, secure_store::capability::BackendIdentity::FallbackBackend);
    assert!(report.available);
}
