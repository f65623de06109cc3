use vstd::prelude::*;
use vstd::arithmetic::div_mod::lemma_fundamental_div_mod;
use vstd::slice::{slice_subrange, slice_to_vec};
use crate::error::{ErrorKind, StoreError};

verus! {

/// A fallback record as it lies on disk: service, account, nonce and
/// ciphertext, each as raw bytes.
#[derive(Clone, Debug, PartialEq, Eq)]
pub struct DiskRecord {
    pub service: Vec<u8>,
    pub account: Vec<u8>,
    pub nonce: Vec<u8>,
    pub ciphertext: Vec<u8>,
}

pub type RecordView = (Seq<u8>, Seq<u8>, Seq<u8>, Seq<u8>);

impl DiskRecord {
    pub open spec fn view(&self) -> RecordView {
        (self.service@, self.account@, self.nonce@, self.ciphertext@)
    }
}

/// The largest length a field can declare.
pub const MAX_FIELD_LEN: usize = 0xffff_ffff;

/// The four little-endian bytes of a length below 2^32.
pub open spec fn le_bytes(n: nat) -> Seq<u8> {
    seq![
        (n % 256) as u8,
        ((n / 256) % 256) as u8,
        ((n / 256 / 256) % 256) as u8,
        ((n / 256 / 256 / 256) % 256) as u8,
    ]
}

/// The length read from the four bytes at `pos`.
pub open spec fn read_le32(b: Seq<u8>, pos: int) -> int {
    b[pos] as int + 256 * (b[pos + 1] as int + 256 * (b[pos + 2] as int + 256 * b[pos + 3] as int))
}

/// A field: its length in four little-endian bytes, then its bytes.
pub open spec fn frame(f: Seq<u8>) -> Seq<u8> {
    le_bytes(f.len()) + f
}

pub open spec fn record_bytes(r: RecordView) -> Seq<u8> {
    frame(r.0) + frame(r.1) + frame(r.2) + frame(r.3)
}

/// A record file: the records one after another.
pub open spec fn file_bytes(rs: Seq<RecordView>) -> Seq<u8>
    decreases rs.len(),
{
    if rs.len() == 0 {
        Seq::empty()
    } else {
        file_bytes(rs.drop_last()) + record_bytes(rs.last())
    }
}

pub open spec fn fits(r: RecordView) -> bool {
    &&& r.0.len() <= MAX_FIELD_LEN
    &&& r.1.len() <= MAX_FIELD_LEN
    &&& r.2.len() <= MAX_FIELD_LEN
    &&& r.3.len() <= MAX_FIELD_LEN
}

/// The field at `pos` and the position after it, if the bytes hold one.
#[verifier::opaque]
pub open spec fn parse_field(b: Seq<u8>, pos: int) -> Option<(Seq<u8>, int)> {
    if 0 <= pos && pos + 4 <= b.len() && pos + 4 + read_le32(b, pos) <= b.len() {
        Some((b.subrange(pos + 4, pos + 4 + read_le32(b, pos)), pos + 4 + read_le32(b, pos)))
    } else {
        None
    }
}

pub open spec fn parse_record(b: Seq<u8>, pos: int) -> Option<(RecordView, int)> {
    match parse_field(b, pos) {
        None => None,
        Some((s, p1)) => match parse_field(b, p1) {
            None => None,
            Some((a, p2)) => match parse_field(b, p2) {
                None => None,
                Some((n, p3)) => match parse_field(b, p3) {
                    None => None,
                    Some((c, p4)) => Some(((s, a, n, c), p4)),
                },
            },
        },
    }
}

/// The records from `pos` to the end, if the bytes there are well formed.
pub open spec fn parse_records_from(b: Seq<u8>, pos: int) -> Option<Seq<RecordView>>
    decreases b.len() - pos,
{
    if pos < 0 || pos > b.len() {
        None
    } else if pos == b.len() {
        Some(Seq::empty())
    } else {
        match parse_record(b, pos) {
            None => None,
            Some((r, p)) => if pos < p <= b.len() {
                match parse_records_from(b, p) {
                    None => None,
                    Some(t) => Some(seq![r] + t),
                }
            } else {
                None
            },
        }
    }
}

pub open spec fn parse_file(b: Seq<u8>) -> Option<Seq<RecordView>> {
    parse_records_from(b, 0)
}

pub open spec fn views(rs: Seq<DiskRecord>) -> Seq<RecordView> {
    rs.map_values(|r: DiskRecord| r@)
}

proof fn lemma_le_round_trip(n: nat)
    requires
        n <= MAX_FIELD_LEN,
    ensures
        read_le32(le_bytes(n), 0) == n,
{
    let a = n / 256;
    let b = a / 256;
    let c = b / 256;
    lemma_fundamental_div_mod(n as int, 256);
    lemma_fundamental_div_mod(a as int, 256);
    lemma_fundamental_div_mod(b as int, 256);
    assert(c < 256);
}

proof fn lemma_file_bytes_prepend(r: RecordView, rs: Seq<RecordView>)
    ensures
        file_bytes(seq![r] + rs) == record_bytes(r) + file_bytes(rs),
    decreases rs.len(),
{
    let whole = seq![r] + rs;
    assert(file_bytes(whole) == file_bytes(whole.drop_last()) + record_bytes(whole.last()));
    if rs.len() == 0 {
        assert(whole.drop_last() =~= Seq::<RecordView>::empty());
        assert(file_bytes(Seq::<RecordView>::empty()) == Seq::<u8>::empty());
        assert(record_bytes(r) + file_bytes(rs) =~= record_bytes(r));
        assert(Seq::<u8>::empty() + record_bytes(r) =~= record_bytes(r));
    } else {
        assert(whole.drop_last() =~= seq![r] + rs.drop_last());
        assert(whole.last() == rs.last());
        assert(file_bytes(rs) == file_bytes(rs.drop_last()) + record_bytes(rs.last()));
        lemma_file_bytes_prepend(r, rs.drop_last());
        assert(record_bytes(r) + file_bytes(rs.drop_last()) + record_bytes(rs.last()) =~= record_bytes(r)
            + (file_bytes(rs.drop_last()) + record_bytes(rs.last())));
    }
}

proof fn lemma_parse_frame(b: Seq<u8>, pos: int, f: Seq<u8>)
    requires
        f.len() <= MAX_FIELD_LEN,
        0 <= pos,
        pos + 4 + f.len() <= b.len(),
        b.subrange(pos, pos + 4 + f.len()) == frame(f),
    ensures
        parse_field(b, pos) == Some((f, pos + 4 + f.len())),
{
    reveal(parse_field);
    let lb = le_bytes(f.len());
    let w = b.subrange(pos, pos + 4 + f.len());
    lemma_le_round_trip(f.len());
    assert(b[pos] == w[0] && w[0] == lb[0]);
    assert(b[pos + 1] == w[1] && w[1] == lb[1]);
    assert(b[pos + 2] == w[2] && w[2] == lb[2]);
    assert(b[pos + 3] == w[3] && w[3] == lb[3]);
    assert(read_le32(b, pos) == f.len());
    assert(b.subrange(pos + 4, pos + 4 + f.len()) =~= w.subrange(4, 4 + f.len() as int));
    assert(w.subrange(4, 4 + f.len() as int) =~= f);
}

proof fn lemma_parse_record_bytes(pre: Seq<u8>, r: RecordView, rest: Seq<u8>)
    requires
        fits(r),
    ensures
        parse_record(pre + record_bytes(r) + rest, pre.len() as int) == Some((r, (pre.len() + record_bytes(r).len()) as int)),
{
    let b = pre + record_bytes(r) + rest;
    let f0 = frame(r.0);
    let f1 = frame(r.1);
    let f2 = frame(r.2);
    let f3 = frame(r.3);
    let p0 = pre.len() as int;
    let p1 = p0 + f0.len();
    let p2 = p1 + f1.len();
    let p3 = p2 + f2.len();
    let p4 = p3 + f3.len();
    assert(b.subrange(p0, p1) =~= f0);
    assert(b.subrange(p1, p2) =~= f1);
    assert(b.subrange(p2, p3) =~= f2);
    assert(b.subrange(p3, p4) =~= f3);
    lemma_parse_frame(b, p0, r.0);
    lemma_parse_frame(b, p1, r.1);
    lemma_parse_frame(b, p2, r.2);
    lemma_parse_frame(b, p3, r.3);
}

proof fn lemma_parse_records(pre: Seq<u8>, rs: Seq<RecordView>)
    requires
        forall|i: int| 0 <= i < rs.len() ==> fits(#[trigger] rs[i]),
    ensures
        parse_records_from(pre + file_bytes(rs), pre.len() as int) == Some(rs),
    decreases rs.len(),
{
    let b = pre + file_bytes(rs);
    if rs.len() == 0 {
        assert(b.len() == pre.len());
    } else {
        let r = rs[0];
        let tail = rs.drop_first();
        assert(rs =~= seq![r] + tail);
        lemma_file_bytes_prepend(r, tail);
        assert(fits(rs[0]));
        assert(b =~= pre + record_bytes(r) + file_bytes(tail));
        lemma_parse_record_bytes(pre, r, file_bytes(tail));
        let next = pre + record_bytes(r);
        assert(forall|i: int| 0 <= i < tail.len() ==> #[trigger] tail[i] == rs[i + 1]);
        lemma_parse_records(next, tail);
        assert(next + file_bytes(tail) =~= b);
        assert(record_bytes(r).len() > 0);
    }
}

/// Reading back a written record file gives the records that were written,
/// in order.
pub proof fn lemma_file_round_trip(rs: Seq<RecordView>)
    requires
        forall|i: int| 0 <= i < rs.len() ==> fits(#[trigger] rs[i]),
    ensures
        parse_file(file_bytes(rs)) == Some(rs),
{
    lemma_parse_records(Seq::empty(), rs);
    assert(Seq::<u8>::empty() + file_bytes(rs) =~= file_bytes(rs));
}

fn append(out: &mut Vec<u8>, b: &[u8])
    ensures
        final(out)@ == old(out)@ + b@,
{
    let mut i: usize = 0;
    while i < b.len()
        invariant
            i <= b@.len(),
            out@ == old(out)@ + b@.subrange(0, i as int),
        decreases b@.len() - i,
    {
        out.push(b[i]);
        i = i + 1;
        assert(out@ =~= old(out)@ + b@.subrange(0, i as int));
    }
    assert(b@.subrange(0, b@.len() as int) =~= b@);
}

fn append_frame(out: &mut Vec<u8>, f: &[u8])
    requires
        f@.len() <= MAX_FIELD_LEN,
    ensures
        final(out)@ == old(out)@ + frame(f@),
{
    let n = f.len();
    let a = n / 256;
    let b = a / 256;
    let c = b / 256;
    out.push((n % 256) as u8);
    out.push((a % 256) as u8);
    out.push((b % 256) as u8);
    out.push((c % 256) as u8);
    assert(out@ =~= old(out)@ + le_bytes(f@.len()));
    append(out, f);
    assert(final(out)@ =~= old(out)@ + frame(f@)) by {
        assert(old(out)@ + le_bytes(f@.len()) + f@ =~= old(out)@ + frame(f@));
    }
}

/// The bytes of one record, or `None` when a field is too long to frame.
pub fn encode_record(r: &DiskRecord) -> (out: Option<Vec<u8>>)
    ensures
        out is Some <==> fits(r@),
        out is Some ==> out->0@ == record_bytes(r@),
{
    if r.service.len() > MAX_FIELD_LEN || r.account.len() > MAX_FIELD_LEN || r.nonce.len() > MAX_FIELD_LEN
        || r.ciphertext.len() > MAX_FIELD_LEN {
        return None;
    }
    let mut out: Vec<u8> = Vec::new();
    append_frame(&mut out, r.service.as_slice());
    append_frame(&mut out, r.account.as_slice());
    append_frame(&mut out, r.nonce.as_slice());
    append_frame(&mut out, r.ciphertext.as_slice());
    assert(out@ =~= record_bytes(r@));
    Some(out)
}

fn decode_field(b: &[u8], pos: usize) -> (r: Option<(Vec<u8>, usize)>)
    ensures
        match parse_field(b@, pos as int) {
            None => r is None,
            Some((f, p)) => match r {
                Some((v, q)) => v@ == f && q == p && pos + 4 <= q <= b@.len(),
                None => false,
            },
        },
{
    proof {
        reveal(parse_field);
    }
    if b.len() < 4 || pos > b.len() - 4 {
        return None;
    }
    let n: u64 = b[pos] as u64 + 256 * (b[pos + 1] as u64 + 256 * (b[pos + 2] as u64 + 256 * b[pos + 3] as u64));
    assert(n == read_le32(b@, pos as int));
    let start = pos + 4;
    let rem = (b.len() - start) as u64;
    if n > rem {
        return None;
    }
    let end = start + n as usize;
    let f = slice_to_vec(slice_subrange(b, start, end));
    Some((f, end))
}

fn decode_record(b: &[u8], pos: usize) -> (r: Option<(DiskRecord, usize)>)
    ensures
        match parse_record(b@, pos as int) {
            None => r is None,
            Some((rec, p)) => match r {
                Some((v, q)) => v@ == rec && q == p && pos < q <= b@.len(),
                None => false,
            },
        },
{
    let (service, p1) = match decode_field(b, pos) {
        Some(x) => x,
        None => return None,
    };
    let (account, p2) = match decode_field(b, p1) {
        Some(x) => x,
        None => return None,
    };
    let (nonce, p3) = match decode_field(b, p2) {
        Some(x) => x,
        None => return None,
    };
    let (ciphertext, p4) = match decode_field(b, p3) {
        Some(x) => x,
        None => return None,
    };
    Some((DiskRecord { service, account, nonce, ciphertext }, p4))
}

/// Reads a record file. Bytes that do not frame whole records give `Corrupted`.
pub fn decode_file(b: &[u8]) -> (r: Result<Vec<DiskRecord>, StoreError>)
    ensures
        match parse_file(b@) {
            Some(rs) => r is Ok && views(r->Ok_0@) == rs,
            None => r is Err && r->Err_0.kind == ErrorKind::Corrupted,
        },
{
    let mut out: Vec<DiskRecord> = Vec::new();
    let mut pos: usize = 0;
    while pos < b.len()
        invariant
            pos <= b@.len(),
            parse_file(b@) == match parse_records_from(b@, pos as int) {
                Some(t) => Some(views(out@) + t),
                None => None::<Seq<RecordView>>,
            },
        decreases b@.len() - pos,
    {
        match decode_record(b, pos) {
            None => {
                return Err(StoreError::new(ErrorKind::Corrupted, "record file is malformed"));
            },
            Some((rec, p)) => {
                let ghost pre = views(out@);
                let ghost rv = rec@;
                out.push(rec);
                proof {
                    assert(views(out@) =~= pre.push(rv));
                    match parse_records_from(b@, p as int) {
                        Some(t) => {
                            assert(pre + (seq![rv] + t) =~= pre.push(rv) + t);
                        },
                        None => {},
                    }
                }
                pos = p;
            },
        }
    }
    assert(views(out@) + Seq::<RecordView>::empty() =~= views(out@));
    Ok(out)
}

/// Writes records one after another, or gives `None` when a field of some
/// record is too long to frame.
pub fn encode_file(rs: &Vec<DiskRecord>) -> (out: Option<Vec<u8>>)
    ensures
        out is Some <==> forall|i: int| 0 <= i < rs@.len() ==> fits(#[trigger] rs@[i]@),
        out is Some ==> out->0@ == file_bytes(views(rs@)),
{
    let mut out: Vec<u8> = Vec::new();
    let mut i: usize = 0;
    while i < rs.len()
        invariant
            i <= rs@.len(),
            forall|j: int| 0 <= j < i ==> fits(#[trigger] rs@[j]@),
            out@ == file_bytes(views(rs@.subrange(0, i as int))),
        decreases rs@.len() - i,
    {
        match encode_record(&rs[i]) {
            None => return None,
            Some(bytes) => {
                let ghost pre = rs@.subrange(0, i as int);
                let ghost next = rs@.subrange(0, i + 1);
                append(&mut out, bytes.as_slice());
                proof {
                    assert(views(next).drop_last() =~= views(pre));
                    assert(views(next).last() == rs@[i as int]@);
                }
                i = i + 1;
            },
        }
    }
    assert(rs@.subrange(0, rs@.len() as int) =~= rs@);
    Some(out)
}

} // verus!
