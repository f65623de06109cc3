use vstd::prelude::*;
use vstd::slice::slice_to_vec;
use crate::error::{ErrorKind, StoreError};
use crate::store::{secret_result_view, unit_result_view};

verus! {

/// How a call into a platform credential API ended, as the platform layer
/// reports it before it is put in the store's terms.
#[derive(PartialEq, Eq, Structural, Clone, Copy, Debug)]
pub enum NativeStatus {
    Success,
    ItemNotFound,
    AccessDenied,
    IntegrityFailure,
    NotImplemented,
    ServiceUnreachable,
    Failed,
}

/// The kind under which a native failure reaches the caller.
pub open spec fn failure_kind(s: NativeStatus) -> ErrorKind {
    match s {
        NativeStatus::AccessDenied => ErrorKind::PermissionDenied,
        NativeStatus::IntegrityFailure => ErrorKind::Corrupted,
        NativeStatus::NotImplemented => ErrorKind::Unsupported,
        NativeStatus::ServiceUnreachable => ErrorKind::Unavailable,
        _ => ErrorKind::Internal,
    }
}

pub fn kind_of_failure(s: NativeStatus) -> (r: ErrorKind)
    ensures
        r == failure_kind(s),
{
    match s {
        NativeStatus::AccessDenied => ErrorKind::PermissionDenied,
        NativeStatus::IntegrityFailure => ErrorKind::Corrupted,
        NativeStatus::NotImplemented => ErrorKind::Unsupported,
        NativeStatus::ServiceUnreachable => ErrorKind::Unavailable,
        _ => ErrorKind::Internal,
    }
}

/// The outcome of a native read: a missing item is an empty success.
pub open spec fn native_get_spec(s: NativeStatus, data: Seq<u8>) -> Result<Option<Seq<u8>>, ErrorKind> {
    match s {
        NativeStatus::Success => Ok(Some(data)),
        NativeStatus::ItemNotFound => Ok(None),
        _ => Err(failure_kind(s)),
    }
}

/// The outcome of a native delete: a missing item is deleted already.
pub open spec fn native_delete_spec(s: NativeStatus) -> Result<(), ErrorKind> {
    match s {
        NativeStatus::Success | NativeStatus::ItemNotFound => Ok(()),
        _ => Err(failure_kind(s)),
    }
}

/// The outcome of a native write.
pub open spec fn native_put_spec(s: NativeStatus) -> Result<(), ErrorKind> {
    match s {
        NativeStatus::Success => Ok(()),
        _ => Err(failure_kind(s)),
    }
}

pub open spec fn is_wiped(after: Seq<u8>, before: Seq<u8>) -> bool {
    &&& after.len() == before.len()
    &&& forall|i: int| 0 <= i < after.len() ==> after[i] == 0u8
}

/// Overwrites every byte of a transient secret buffer with zero.
pub fn wipe(buf: &mut Vec<u8>)
    ensures
        is_wiped(final(buf)@, old(buf)@),
{
    let n = buf.len();
    let mut i: usize = 0;
    while i < n
        invariant
            n == buf@.len(),
            n == old(buf)@.len(),
            i <= n,
            forall|j: int| 0 <= j < i ==> buf@[j] == 0u8,
        decreases n - i,
    {
        buf[i] = 0;
        i = i + 1;
    }
}

fn failure(s: NativeStatus, message: &str) -> (e: StoreError)
    ensures
        e.kind == failure_kind(s),
        e.message@ == message@,
{
    StoreError::new(kind_of_failure(s), message)
}

/// Turns a native read into the store's outcome. The secret is copied out of
/// `buffer`, and `buffer` is zeroed on every path.
pub fn finish_get(status: NativeStatus, buffer: &mut Vec<u8>, message: &str) -> (r: Result<
    Option<Vec<u8>>,
    StoreError,
>)
    ensures
        secret_result_view(r) == native_get_spec(status, old(buffer)@),
        r is Err ==> r->Err_0.message@ == message@,
        is_wiped(final(buffer)@, old(buffer)@),
{
    let r = match status {
        NativeStatus::Success => Ok(Some(slice_to_vec(buffer.as_slice()))),
        NativeStatus::ItemNotFound => Ok(None),
        _ => Err(failure(status, message)),
    };
    wipe(buffer);
    r
}

/// Turns a native write into the store's outcome.
pub fn finish_put(status: NativeStatus, message: &str) -> (r: Result<(), StoreError>)
    ensures
        unit_result_view(r) == native_put_spec(status),
        r is Err ==> r->Err_0.message@ == message@,
{
    match status {
        NativeStatus::Success => Ok(()),
        _ => Err(failure(status, message)),
    }
}

/// Turns a native delete into the store's outcome.
pub fn finish_delete(status: NativeStatus, message: &str) -> (r: Result<(), StoreError>)
    ensures
        unit_result_view(r) == native_delete_spec(status),
        r is Err ==> r->Err_0.message@ == message@,
{
    match status {
        NativeStatus::Success | NativeStatus::ItemNotFound => Ok(()),
        _ => Err(failure(status, message)),
    }
}

/// Turns a native enumeration into the store's outcome: nothing found is an
/// empty list, a backend that cannot enumerate gives `Unsupported`.
pub fn finish_list(status: NativeStatus, services: Vec<String>, message: &str) -> (r: Result<
    Vec<String>,
    StoreError,
>)
    ensures
        status == NativeStatus::Success ==> r == Ok::<Vec<String>, StoreError>(services),
        status == NativeStatus::ItemNotFound ==> r is Ok && r->Ok_0@.len() == 0,
        status != NativeStatus::Success && status != NativeStatus::ItemNotFound ==> r is Err
            && r->Err_0.kind == failure_kind(status) && r->Err_0.message@ == message@,
{
    match status {
        NativeStatus::Success => Ok(services),
        NativeStatus::ItemNotFound => Ok(Vec::new()),
        _ => Err(failure(status, message)),
    }
}

/// A missing item never surfaces as a failure: a native delete of it succeeds,
/// and a native read of it succeeds with `None`.
pub proof fn lemma_missing_item_is_success(data: Seq<u8>)
    ensures
        native_delete_spec(NativeStatus::ItemNotFound) == Ok::<(), ErrorKind>(()),
        native_get_spec(NativeStatus::ItemNotFound, data) == Ok::<Option<Seq<u8>>, ErrorKind>(None),
{
}

/// An access denial always reaches the caller as `PermissionDenied`.
pub proof fn lemma_denial_kept_distinct(data: Seq<u8>)
    ensures
        native_get_spec(NativeStatus::AccessDenied, data) == Err::<Option<Seq<u8>>, ErrorKind>(ErrorKind::PermissionDenied),
        native_put_spec(NativeStatus::AccessDenied) == Err::<(), ErrorKind>(ErrorKind::PermissionDenied),
        native_delete_spec(NativeStatus::AccessDenied) == Err::<(), ErrorKind>(ErrorKind::PermissionDenied),
{
}

} // verus!
