use vstd::prelude::*;
use crate::error::{ErrorKind, StoreError};
use crate::store::secret_result_view;
use crate::table::{KeyView, RecordTable};

verus! {

/// A secret as the fallback backend keeps it at rest: the nonce it was sealed
/// with and the authenticated ciphertext.
#[derive(Clone, Debug, PartialEq, Eq)]
pub struct SealedSecret {
    pub nonce: Vec<u8>,
    pub ciphertext: Vec<u8>,
}

pub open spec fn sealed_view(s: SealedSecret) -> (Seq<u8>, Seq<u8>) {
    (s.nonce@, s.ciphertext@)
}

/// The fallback backend's records, keyed by (service, account).
pub struct FallbackStore {
    records: RecordTable<SealedSecret>,
}

impl FallbackStore {
    pub closed spec fn wf(&self) -> bool {
        self.records.wf()
    }

    /// The records as (nonce, ciphertext) by key.
    pub closed spec fn view(&self) -> Map<KeyView, (Seq<u8>, Seq<u8>)> {
        self.records@.map_values(|s: SealedSecret| sealed_view(s))
    }

    pub fn new() -> (r: FallbackStore)
        ensures
            r.wf(),
            r@ == Map::<KeyView, (Seq<u8>, Seq<u8>)>::empty(),
    {
        let r = FallbackStore { records: RecordTable::new() };
        assert(r@ =~= Map::<KeyView, (Seq<u8>, Seq<u8>)>::empty());
        r
    }

    /// Keeps a sealed secret under (service, account), replacing any earlier one.
    pub fn put_sealed(&mut self, service: &str, account: &str, sealed: SealedSecret)
        requires
            old(self).wf(),
        ensures
            final(self).wf(),
            final(self)@ == old(self)@.insert((service@, account@), sealed_view(sealed)),
    {
        self.records.insert(service, account, sealed);
        assert(self@ =~= old(self)@.insert((service@, account@), sealed_view(sealed)));
    }

    /// The sealed secret under (service, account), if any.
    pub fn sealed(&self, service: &str, account: &str) -> (r: Option<&SealedSecret>)
        requires
            self.wf(),
        ensures
            r is Some <==> self@.contains_key((service@, account@)),
            r is Some ==> sealed_view(*r->0) == self@[(service@, account@)],
    {
        self.records.get(service, account)
    }

    /// Removes the record under (service, account); a missing one is no error.
    pub fn delete(&mut self, service: &str, account: &str)
        requires
            old(self).wf(),
        ensures
            final(self).wf(),
            final(self)@ == old(self)@.remove((service@, account@)),
    {
        let _ = self.records.remove(service, account);
        assert(self@ =~= old(self)@.remove((service@, account@)));
    }
}

/// What a fallback read answers once the record was looked up and, if it was
/// there, its authentication checked: `opened` is the plaintext, or `None`
/// when the tag did not match.
pub open spec fn fallback_get_spec(present: bool, opened: Option<Seq<u8>>) -> Result<Option<Seq<u8>>, ErrorKind> {
    if !present {
        Ok(None)
    } else {
        match opened {
            Some(p) => Ok(Some(p)),
            None => Err(ErrorKind::Corrupted),
        }
    }
}

pub open spec fn bytes_view(o: Option<Vec<u8>>) -> Option<Seq<u8>> {
    match o {
        Some(v) => Some(v@),
        None => None,
    }
}

/// Finishes a fallback read: a record that fails authentication is reported
/// as corrupted and never handed out.
pub fn finish_fallback_get(present: bool, opened: Option<Vec<u8>>) -> (r: Result<Option<Vec<u8>>, StoreError>)
    ensures
        secret_result_view(r) == fallback_get_spec(present, bytes_view(opened)),
{
    if !present {
        return Ok(None);
    }
    match opened {
        Some(p) => Ok(Some(p)),
        None => Err(StoreError::new(ErrorKind::Corrupted, "stored entry failed its integrity check")),
    }
}

} // verus!
