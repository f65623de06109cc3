use vstd::prelude::*;

verus! {

/// The kinds of failure that every backend reports in the same terms.
#[derive(PartialEq, Eq, Structural, Clone, Copy, Debug)]
pub enum ErrorKind {
    /// No usable backend on this host, or the probe timed out.
    Unavailable,
    /// Only where an absence cannot be expressed as a successful empty result.
    NotFound,
    /// The operating system refused access (consent declined, ACL mismatch).
    PermissionDenied,
    /// A stored entry failed its integrity check.
    Corrupted,
    /// The active backend does not implement the operation.
    Unsupported,
    /// Any other backend failure; the message carries the native text.
    Internal,
}

/// The stable code under which a kind crosses the host boundary.
pub open spec fn kind_code(k: ErrorKind) -> Seq<char> {
    match k {
        ErrorKind::Unavailable => "Unavailable"@,
        ErrorKind::NotFound => "NotFound"@,
        ErrorKind::PermissionDenied => "PermissionDenied"@,
        ErrorKind::Corrupted => "Corrupted"@,
        ErrorKind::Unsupported => "Unsupported"@,
        ErrorKind::Internal => "Internal"@,
    }
}

impl ErrorKind {
    pub fn code(&self) -> (r: &'static str)
        ensures
            r@ == kind_code(*self),
    {
        match self {
            ErrorKind::Unavailable => "Unavailable",
            ErrorKind::NotFound => "NotFound",
            ErrorKind::PermissionDenied => "PermissionDenied",
            ErrorKind::Corrupted => "Corrupted",
            ErrorKind::Unsupported => "Unsupported",
            ErrorKind::Internal => "Internal",
        }
    }
}

/// A failed operation: its kind and a message for diagnostics.
#[derive(Clone, Debug)]
pub struct StoreError {
    pub kind: ErrorKind,
    pub message: String,
}

impl StoreError {
    pub fn new(kind: ErrorKind, message: &str) -> (r: StoreError)
        ensures
            r.kind == kind,
            r.message@ == message@,
    {
        StoreError { kind, message: message.to_owned() }
    }
}

} // verus!
