use secure_store::capability::{detect, is_secure_storage_available, native_backend, BackendIdentity, ProbeOutcome, Session};
use secure_store::platform::{get_platform_info, Platform};

#[test]
fn platform_names() {
    assert_eq!(get_platform_info(Platform::MacOs), "macos");
    assert_eq!(get_platform_info(Platform::Windows), "windows");
    assert_eq!(get_platform_info(Platform::Linux), "linux");
    assert_eq!(get_platform_info(Platform::Unknown), "unknown");
}

#[test]
fn native_backends_by_platform() {
    assert_eq!(native_backend(Platform::MacOs), Some(BackendIdentity::KeychainBackend));
    assert_eq!(native_backend(Platform::Windows), Some(BackendIdentity::CredentialManagerBackend));
    assert_eq!(native_backend(Platform::Linux), Some(BackendIdentity::SecretServiceBackend));
    assert_eq!(native_backend(Platform::Unknown), None);
}

#[test]
fn native_backend_used_when_available() {
    let r = detect(Platform::Linux, ProbeOutcome::Available, true);
    assert_eq!(r.backend, BackendIdentity::SecretServiceBackend);
    assert!(r.available);
    assert_eq!(r.reason, None);
}

#[test]
fn missing_secret_service_selects_fallback() {
    let r = detect(Platform::Linux, ProbeOutcome::Unavailable, true);
    assert_eq!(r.backend, BackendIdentity::FallbackBackend);
    assert!(r.available);
    let t = detect(Platform::Linux, ProbeOutcome::TimedOut, true);
    assert_eq!(t.backend, BackendIdentity::FallbackBackend);
}

#[test]
fn secure_storage_available_through_fallback() {
    let r = detect(Platform::Linux, ProbeOutcome::Unavailable, true);
    assert!(is_secure_storage_available(&r));
}

#[test]
fn fallback_without_key_source_is_unavailable() {
    let r = detect(Platform::Linux, ProbeOutcome::Unavailable, false);
    assert_eq!(r.backend, BackendIdentity::FallbackBackend);
    assert!(!is_secure_storage_available(&r));
    assert_eq!(r.reason, Some("fallback-key-unavailable".to_string()));
}

#[test]
fn fallback_never_replaces_other_native_stores() {
    let r = detect(Platform::MacOs, ProbeOutcome::Unavailable, true);
    assert_eq!(r.backend, BackendIdentity::KeychainBackend);
    assert!(!r.available);
    assert_eq!(r.reason, Some("native-store-unavailable".to_string()));
}

#[test]
fn probe_timeout_reason() {
    let r = detect(Platform::Windows, ProbeOutcome::TimedOut, true);
    assert_eq!(r.backend, BackendIdentity::CredentialManagerBackend);
    assert!(!r.available);
    assert_eq!(r.reason, Some("probe-timeout".to_string()));
}

#[test]
fn unknown_platform_is_unavailable() {
    let r = detect(Platform::Unknown, ProbeOutcome::Available, true);
    assert_eq!(r.backend, BackendIdentity::Unavailable);
    assert!(!is_secure_storage_available(&r));
    assert_eq!(r.reason, Some("unsupported-platform".to_string()));
}

#[test]
fn session_selection_is_fixed() {
    let mut s = Session::new();
    assert!(s.needs_detection());
    assert!(s.capability().is_none());
    let first = s.init_secure_storage(Platform::Linux, ProbeOutcome::Unavailable, true);
    assert_eq!(first.backend, BackendIdentity::FallbackBackend);
    assert!(!s.needs_detection());
    let second = s.init_secure_storage(Platform::Linux, ProbeOutcome::Available, true);
    assert_eq!(second.backend, BackendIdentity::FallbackBackend);
    assert_eq!(s.capability().unwrap().backend, BackendIdentity::FallbackBackend);
}
