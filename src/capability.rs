use vstd::prelude::*;
use crate::platform::Platform;

verus! {

/// The backends a store can run on. Exactly one is active per session.
#[derive(PartialEq, Eq, Structural, Clone, Copy, Debug)]
pub enum BackendIdentity {
    KeychainBackend,
    CredentialManagerBackend,
    SecretServiceBackend,
    FallbackBackend,
    Unavailable,
}

/// What the platform-specific probe of the native store found.
#[derive(PartialEq, Eq, Structural, Clone, Copy, Debug)]
pub enum ProbeOutcome {
    Available,
    Unavailable,
    TimedOut,
}

/// The result of detection: which backend, whether it is usable, and why not.
#[derive(Clone, Debug)]
pub struct CapabilityReport {
    pub backend: BackendIdentity,
    pub available: bool,
    pub reason: Option<String>,
}

/// The native store each platform family is expected to provide.
pub open spec fn native_backend_of(p: Platform) -> Option<BackendIdentity> {
    match p {
        Platform::MacOs => Some(BackendIdentity::KeychainBackend),
        Platform::Windows => Some(BackendIdentity::CredentialManagerBackend),
        Platform::Linux => Some(BackendIdentity::SecretServiceBackend),
        Platform::Unknown => None,
    }
}

/// The backend chosen for a platform and probe: the native one if present,
/// the fallback exactly when the expected native store is the secret service
/// and it is unreachable.
pub open spec fn selected_backend(p: Platform, probe: ProbeOutcome) -> BackendIdentity {
    match native_backend_of(p) {
        None => BackendIdentity::Unavailable,
        Some(b) => if probe != ProbeOutcome::Available && b == BackendIdentity::SecretServiceBackend {
            BackendIdentity::FallbackBackend
        } else {
            b
        },
    }
}

/// Whether the chosen backend can serve requests.
pub open spec fn selection_available(p: Platform, probe: ProbeOutcome, fallback_key_available: bool) -> bool {
    match selected_backend(p, probe) {
        BackendIdentity::Unavailable => false,
        BackendIdentity::FallbackBackend => fallback_key_available,
        _ => probe == ProbeOutcome::Available,
    }
}

/// The diagnostic text of an unusable selection.
pub open spec fn selection_reason(p: Platform, probe: ProbeOutcome, fallback_key_available: bool) -> Option<Seq<char>> {
    if selection_available(p, probe, fallback_key_available) {
        None
    } else {
        match selected_backend(p, probe) {
            BackendIdentity::Unavailable => Some("unsupported-platform"@),
            BackendIdentity::FallbackBackend => Some("fallback-key-unavailable"@),
            _ => if probe == ProbeOutcome::TimedOut {
                Some("probe-timeout"@)
            } else {
                Some("native-store-unavailable"@)
            },
        }
    }
}

pub open spec fn reason_view(r: Option<String>) -> Option<Seq<char>> {
    match r {
        Some(s) => Some(s@),
        None => None,
    }
}

impl CapabilityReport {
    /// An exact copy of the report.
    pub fn snapshot(&self) -> (r: CapabilityReport)
        ensures
            r == *self,
    {
        let reason = match &self.reason {
            Some(s) => Some(s.clone()),
            None => None,
        };
        CapabilityReport { backend: self.backend, available: self.available, reason }
    }

    pub open spec fn describes(&self, p: Platform, probe: ProbeOutcome, fallback_key_available: bool) -> bool {
        &&& self.backend == selected_backend(p, probe)
        &&& self.available == selection_available(p, probe, fallback_key_available)
        &&& reason_view(self.reason) == selection_reason(p, probe, fallback_key_available)
    }
}

/// When the expected native store is the secret service and its probe does
/// not find it, the selection is the fallback backend, usable exactly when
/// the fallback's key source is.
pub proof fn lemma_fallback_on_missing_secret_service(
    platform: Platform,
    probe: ProbeOutcome,
    fallback_key_available: bool,
    r: CapabilityReport,
)
    requires
        native_backend_of(platform) == Some(BackendIdentity::SecretServiceBackend),
        probe != ProbeOutcome::Available,
        r.describes(platform, probe, fallback_key_available),
    ensures
        r.backend == BackendIdentity::FallbackBackend,
        r.available == fallback_key_available,
{
}

/// The fallback is selected only in place of an unreachable secret service,
/// never over a native store that the probe found.
pub proof fn lemma_fallback_only_in_place_of_secret_service(platform: Platform, probe: ProbeOutcome)
    ensures
        selected_backend(platform, probe) == BackendIdentity::FallbackBackend <==> (native_backend_of(platform)
            == Some(BackendIdentity::SecretServiceBackend) && probe != ProbeOutcome::Available),
{
}

pub fn native_backend(platform: Platform) -> (r: Option<BackendIdentity>)
    ensures
        r == native_backend_of(platform),
{
    match platform {
        Platform::MacOs => Some(BackendIdentity::KeychainBackend),
        Platform::Windows => Some(BackendIdentity::CredentialManagerBackend),
        Platform::Linux => Some(BackendIdentity::SecretServiceBackend),
        Platform::Unknown => None,
    }
}

/// Builds the capability report from the probe of the native store and
/// from whether the fallback's key source can be reached.
pub fn detect(platform: Platform, probe: ProbeOutcome, fallback_key_available: bool) -> (r: CapabilityReport)
    ensures
        r.describes(platform, probe, fallback_key_available),
{
    match native_backend(platform) {
        None => CapabilityReport {
            backend: BackendIdentity::Unavailable,
            available: false,
            reason: Some("unsupported-platform".to_owned()),
        },
        Some(native) => {
            let probe_ok = probe == ProbeOutcome::Available;
            if !probe_ok && native == BackendIdentity::SecretServiceBackend {
                if fallback_key_available {
                    CapabilityReport { backend: BackendIdentity::FallbackBackend, available: true, reason: None }
                } else {
                    CapabilityReport {
                        backend: BackendIdentity::FallbackBackend,
                        available: false,
                        reason: Some("fallback-key-unavailable".to_owned()),
                    }
                }
            } else if probe_ok {
                CapabilityReport { backend: native, available: true, reason: None }
            } else if probe == ProbeOutcome::TimedOut {
                CapabilityReport { backend: native, available: false, reason: Some("probe-timeout".to_owned()) }
            } else {
                CapabilityReport {
                    backend: native,
                    available: false,
                    reason: Some("native-store-unavailable".to_owned()),
                }
            }
        },
    }
}

/// Whether secrets can be stored securely under this report.
pub fn is_secure_storage_available(report: &CapabilityReport) -> (r: bool)
    ensures
        r == report.available,
{
    report.available
}

/// The process-scoped detection state: empty until the first detection,
/// then fixed for the rest of the session.
pub struct Session {
    report: Option<CapabilityReport>,
}

impl Session {
    pub closed spec fn selection(&self) -> Option<CapabilityReport> {
        self.report
    }

    pub fn new() -> (r: Session)
        ensures
            r.selection() is None,
    {
        Session { report: None }
    }

    /// Whether a probe still has to run before the session can serve calls.
    pub fn needs_detection(&self) -> (r: bool)
        ensures
            r == (self.selection() is None),
    {
        self.report.is_none()
    }

    /// The report of the first detection, if there was one.
    pub fn capability(&self) -> (r: Option<CapabilityReport>)
        ensures
            r == self.selection(),
    {
        match &self.report {
            Some(rep) => Some(rep.snapshot()),
            None => None,
        }
    }

    /// Detects once and keeps the result: a later call returns the report
    /// of the first one, whatever it is given.
    pub fn init_secure_storage(&mut self, platform: Platform, probe: ProbeOutcome, fallback_key_available: bool) -> (r: CapabilityReport)
        ensures
            old(self).selection() is None ==> r.describes(platform, probe, fallback_key_available),
            old(self).selection() is Some ==> final(self).selection() == old(self).selection(),
            final(self).selection() == Some(r),
    {
        match &self.report {
            Some(rep) => rep.snapshot(),
            None => {
                let rep = detect(platform, probe, fallback_key_available);
                self.report = Some(rep.snapshot());
                rep
            },
        }
    }
}

} // verus!
