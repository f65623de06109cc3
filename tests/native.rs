use secure_store::error::{ErrorKind, StoreError};
use secure_store::fallback::{finish_fallback_get, FallbackStore, SealedSecret};
use secure_store::native::{finish_delete, finish_get, finish_list, finish_put, wipe, NativeStatus};

#[test]
fn native_read_copies_then_wipes() {
    let mut buf = b"hunter2".to_vec();
    let r = finish_get(NativeStatus::Success, &mut buf, "");
    assert_eq!(r.unwrap(), Some(b"hunter2".to_vec()));
    assert_eq!(buf, vec![0u8; 7]);
}

#[test]
fn native_read_wipes_on_failure() {
    let mut buf = b"leftover".to_vec();
    let r = finish_get(NativeStatus::AccessDenied, &mut buf, "user declined");
    let e = r.unwrap_err();
    assert_eq!(e.kind, ErrorKind::PermissionDenied);
    assert_eq!(e.message, "user declined");
    assert_eq!(buf, vec![0u8; 8]);
}

#[test]
fn native_missing_item_reads_as_none() {
    let mut buf = Vec::new();
    assert_eq!(finish_get(NativeStatus::ItemNotFound, &mut buf, "").unwrap(), None);
}

#[test]
fn native_missing_item_deletes_fine() {
    assert!(finish_delete(NativeStatus::ItemNotFound, "").is_ok());
    assert!(finish_delete(NativeStatus::Success, "").is_ok());
}

#[test]
fn native_failures_keep_their_kind() {
    assert_eq!(finish_put(NativeStatus::IntegrityFailure, "bad").unwrap_err().kind, ErrorKind::Corrupted);
    assert_eq!(finish_put(NativeStatus::ServiceUnreachable, "gone").unwrap_err().kind, ErrorKind::Unavailable);
    assert_eq!(finish_put(NativeStatus::ItemNotFound, "odd").unwrap_err().kind, ErrorKind::Internal);
    assert_eq!(finish_delete(NativeStatus::Failed, "boom").unwrap_err().kind, ErrorKind::Internal);
    assert!(finish_put(NativeStatus::Success, "").is_ok());
}

#[test]
fn native_list_outcomes() {
    let names = vec!["a".to_string(), "b".to_string()];
    assert_eq!(finish_list(NativeStatus::Success, names.clone(), "").unwrap(), names);
    assert!(finish_list(NativeStatus::ItemNotFound, names.clone(), "").unwrap().is_empty());
    assert_eq!(
        finish_list(NativeStatus::NotImplemented, names, "no enumeration").unwrap_err().kind,
        ErrorKind::Unsupported
    );
}

#[test]
fn wipe_zeroes_every_byte() {
    let mut buf = vec![1u8, 2, 3, 255];
    wipe(&mut buf);
    assert_eq!(buf, vec![0u8; 4]);
}

#[test]
fn error_codes() {
    assert_eq!(ErrorKind::Unavailable.code(), "Unavailable");
    assert_eq!(ErrorKind::NotFound.code(), "NotFound");
    assert_eq!(ErrorKind::PermissionDenied.code(), "PermissionDenied");
    assert_eq!(ErrorKind::Corrupted.code(), "Corrupted");
    assert_eq!(ErrorKind::Unsupported.code(), "Unsupported");
    assert_eq!(ErrorKind::Internal.code(), "Internal");
    let e = StoreError::new(ErrorKind::Internal, "native code -25300");
    assert_eq!(e.message, "native code -25300");
}

#[test]
fn tampered_fallback_record_is_corrupted() {
    let e = finish_fallback_get(true, None).unwrap_err();
    assert_eq!(e.kind, ErrorKind::Corrupted);
}

#[test]
fn fallback_read_outcomes() {
    assert_eq!(finish_fallback_get(false, None).unwrap(), None);
    assert_eq!(finish_fallback_get(true, Some(b"pw".to_vec())).unwrap(), Some(b"pw".to_vec()));
}

#[test]
fn fallback_records_by_key() {
    let mut f = FallbackStore::new();
    f.put_sealed("svc", "acct", SealedSecret { nonce: vec![1, 2, 3], ciphertext: vec![9, 9] });
    f.put_sealed("svc", "acct", SealedSecret { nonce: vec![4], ciphertext: vec![8] });
    let s = f.sealed("svc", "acct").unwrap();
    assert_eq!(s.nonce, vec![4]);
    assert_eq!(s.ciphertext, vec![8]);
    assert!(f.sealed("svc", "other").is_none());
    f.delete("svc", "acct");
    assert!(f.sealed("svc", "acct").is_none());
    f.delete("svc", "acct");
}
