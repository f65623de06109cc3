use vstd::prelude::*;
use vstd::slice::slice_to_vec;
use crate::capability::CapabilityReport;
use crate::error::{ErrorKind, StoreError};
use crate::table::{lists_each_once, services_of, KeyView, RecordTable};

verus! {

/// The secrets of a namespace, by key.
pub type Secrets = Map<KeyView, Seq<u8>>;

/// What `get` answers on a namespace: the secret, `None` for a missing key,
/// or `Unavailable` when no backend can serve.
pub open spec fn get_spec(available: bool, m: Secrets, k: KeyView) -> Result<Option<Seq<u8>>, ErrorKind> {
    if !available {
        Err(ErrorKind::Unavailable)
    } else if m.contains_key(k) {
        Ok(Some(m[k]))
    } else {
        Ok(None)
    }
}

/// The namespace after `put`.
pub open spec fn put_spec(available: bool, m: Secrets, k: KeyView, secret: Seq<u8>) -> Secrets {
    if available {
        m.insert(k, secret)
    } else {
        m
    }
}

/// The namespace after `delete`.
pub open spec fn delete_spec(available: bool, m: Secrets, k: KeyView) -> Secrets {
    if available {
        m.remove(k)
    } else {
        m
    }
}

/// What `put` and `delete` answer: success exactly when a backend can serve.
pub open spec fn write_result_spec(available: bool) -> Result<(), ErrorKind> {
    if available {
        Ok(())
    } else {
        Err(ErrorKind::Unavailable)
    }
}

pub open spec fn unit_result_view(r: Result<(), StoreError>) -> Result<(), ErrorKind> {
    match r {
        Ok(()) => Ok(()),
        Err(e) => Err(e.kind),
    }
}

pub open spec fn secret_result_view(r: Result<Option<Vec<u8>>, StoreError>) -> Result<Option<Seq<u8>>, ErrorKind> {
    match r {
        Ok(Some(v)) => Ok(Some(v@)),
        Ok(None) => Ok(None),
        Err(e) => Err(e.kind),
    }
}

/// Round trip: on a store that can serve, a `get` after `put` returns exactly
/// the bytes that were put.
pub proof fn lemma_put_then_get(m: Secrets, k: KeyView, secret: Seq<u8>)
    ensures
        get_spec(true, put_spec(true, m, k, secret), k) == Ok::<Option<Seq<u8>>, ErrorKind>(Some(secret)),
{
}

/// Deleting a key that is not stored succeeds and leaves the namespace as it was.
pub proof fn lemma_delete_missing(m: Secrets, k: KeyView)
    requires
        !m.contains_key(k),
    ensures
        write_result_spec(true) == Ok::<(), ErrorKind>(()),
        delete_spec(true, m, k) == m,
{
    assert(m.remove(k) =~= m);
}

/// `get` on a key that is not stored succeeds with `None`; no `get` ever fails
/// with `NotFound`.
pub proof fn lemma_get_missing(available: bool, m: Secrets, k: KeyView)
    ensures
        available && !m.contains_key(k) ==> get_spec(available, m, k) == Ok::<Option<Seq<u8>>, ErrorKind>(None),
        get_spec(available, m, k) != Err::<Option<Seq<u8>>, ErrorKind>(ErrorKind::NotFound),
{
}

/// Overwrite is whole: every `get` sees, under the overwritten key, either the
/// old secret in full (before the `put`) or the new one in full (after it), and
/// the other keys untouched.
pub proof fn lemma_overwrite_whole(m: Secrets, k: KeyView, secret: Seq<u8>, q: KeyView)
    requires
        m.contains_key(k),
    ensures
        get_spec(true, m, k) == Ok::<Option<Seq<u8>>, ErrorKind>(Some(m[k])),
        get_spec(true, put_spec(true, m, k, secret), k) == Ok::<Option<Seq<u8>>, ErrorKind>(Some(secret)),
        q != k ==> get_spec(true, put_spec(true, m, k, secret), q) == get_spec(true, m, q),
{
}

/// After `delete`, `get` finds nothing, and a second `delete` succeeds again
/// without changing anything.
pub proof fn lemma_delete_then_get(m: Secrets, k: KeyView)
    ensures
        get_spec(true, delete_spec(true, m, k), k) == Ok::<Option<Seq<u8>>, ErrorKind>(None),
        delete_spec(true, delete_spec(true, m, k), k) == delete_spec(true, m, k),
{
    assert(m.remove(k).remove(k) =~= m.remove(k));
}

/// A credential store bound to one capability report for its whole life,
/// serving one namespace of records.
pub struct CredentialStore {
    report: CapabilityReport,
    records: RecordTable<Vec<u8>>,
}

impl CredentialStore {
    pub closed spec fn wf(&self) -> bool {
        self.records.wf()
    }

    /// The report the store was created with.
    pub closed spec fn report(&self) -> CapabilityReport {
        self.report
    }

    pub open spec fn available(&self) -> bool {
        self.report().available
    }

    /// The stored secrets.
    pub closed spec fn contents(&self) -> Secrets {
        self.records@.map_values(|v: Vec<u8>| v@)
    }

    pub fn new(report: CapabilityReport) -> (r: CredentialStore)
        ensures
            r.wf(),
            r.report() == report,
            r.contents() == Map::<KeyView, Seq<u8>>::empty(),
    {
        let r = CredentialStore { report, records: RecordTable::new() };
        assert(r.contents() =~= Map::<KeyView, Seq<u8>>::empty());
        r
    }

    /// The report that selected this store's backend.
    pub fn capability(&self) -> (r: CapabilityReport)
        ensures
            r == self.report(),
    {
        self.report.snapshot()
    }

    fn unavailable(&self) -> (e: StoreError)
        ensures
            e.kind == ErrorKind::Unavailable,
    {
        StoreError::new(ErrorKind::Unavailable, "no secure storage backend is available")
    }

    /// Stores `secret` under (service, account), replacing any earlier one whole.
    pub fn put(&mut self, service: &str, account: &str, secret: &[u8]) -> (r: Result<(), StoreError>)
        requires
            old(self).wf(),
        ensures
            final(self).wf(),
            final(self).report() == old(self).report(),
            unit_result_view(r) == write_result_spec(old(self).available()),
            final(self).contents() == put_spec(
                old(self).available(),
                old(self).contents(),
                (service@, account@),
                secret@,
            ),
    {
        if !self.report.available {
            return Err(self.unavailable());
        }
        let v = slice_to_vec(secret);
        self.records.insert(service, account, v);
        assert(self.contents() =~= old(self).contents().insert((service@, account@), secret@));
        Ok(())
    }

    /// The secret under (service, account): `Ok(None)` when there is none.
    pub fn get(&self, service: &str, account: &str) -> (r: Result<Option<Vec<u8>>, StoreError>)
        requires
            self.wf(),
        ensures
            secret_result_view(r) == get_spec(self.available(), self.contents(), (service@, account@)),
    {
        if !self.report.available {
            return Err(self.unavailable());
        }
        match self.records.get(service, account) {
            Some(v) => Ok(Some(slice_to_vec(v.as_slice()))),
            None => Ok(None),
        }
    }

    /// Each service that has a stored secret, once.
    pub fn list_services(&self) -> (r: Result<Vec<String>, StoreError>)
        requires
            self.wf(),
        ensures
            r is Ok <==> self.available(),
            r is Err ==> r->Err_0.kind == ErrorKind::Unavailable,
            r is Ok ==> lists_each_once(r->Ok_0@, services_of(self.contents())),
    {
        if !self.report.available {
            return Err(self.unavailable());
        }
        assert(self.contents().dom() =~= self.records@.dom());
        assert(services_of(self.contents()) =~= services_of(self.records@));
        let v = self.records.services();
        Ok(v)
    }

    /// Deletes the record under (service, account); a missing record is no error.
    pub fn delete(&mut self, service: &str, account: &str) -> (r: Result<(), StoreError>)
        requires
            old(self).wf(),
        ensures
            final(self).wf(),
            final(self).report() == old(self).report(),
            unit_result_view(r) == write_result_spec(old(self).available()),
            final(self).contents() == delete_spec(
                old(self).available(),
                old(self).contents(),
                (service@, account@),
            ),
    {
        if !self.report.available {
            return Err(self.unavailable());
        }
        let _ = self.records.remove(service, account);
        assert(self.contents() =~= old(self).contents().remove((service@, account@)));
        Ok(())
    }
}

} // verus!
