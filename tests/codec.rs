use secure_store::codec::{decode_file, encode_file, encode_record, DiskRecord};
use secure_store::error::ErrorKind;

fn record(service: &str, account: &str, nonce: &[u8], ciphertext: &[u8]) -> DiskRecord {
    DiskRecord {
        service: service.as_bytes().to_vec(),
        account: account.as_bytes().to_vec(),
        nonce: nonce.to_vec(),
        ciphertext: ciphertext.to_vec(),
    }
}

#[test]
fn record_bytes_exact() {
    let bytes = encode_record(&record("ab", "c", &[7], &[])).unwrap();
    assert_eq!(bytes, vec![2, 0, 0, 0, b'a', b'b', 1, 0, 0, 0, b'c', 1, 0, 0, 0, 7, 0, 0, 0, 0]);
}

#[test]
fn long_field_length_is_little_endian() {
    let ct = vec![0xaau8; 300];
    let bytes = encode_record(&record("", "", &[], &ct)).unwrap();
    assert_eq!(&bytes[12..16], &[44, 1, 0, 0]);
    assert_eq!(bytes.len(), 16 + 300);
}

#[test]
fn file_round_trip() {
    let rs = vec![
        record("app1", "user1", &[1, 2, 3], &[9, 8, 7, 6]),
        record("app2", "", &[], &[0xff; 40]),
    ];
    let bytes = encode_file(&rs).unwrap();
    let back = decode_file(&bytes).unwrap();
    assert_eq!(back, rs);
}

#[test]
fn empty_file_has_no_records() {
    let bytes = encode_file(&Vec::new()).unwrap();
    assert!(bytes.is_empty());
    assert!(decode_file(&bytes).unwrap().is_empty());
}

#[test]
fn truncated_file_is_corrupted() {
    let bytes = encode_file(&vec![record("svc", "acct", &[1], &[2, 3])]).unwrap();
    let cut = &bytes[..bytes.len() - 1];
    assert_eq!(decode_file(cut).unwrap_err().kind, ErrorKind::Corrupted);
}

#[test]
fn oversized_length_is_corrupted() {
    let bytes = vec![255u8, 255, 255, 255, 1, 2, 3];
    assert_eq!(decode_file(&bytes).unwrap_err().kind, ErrorKind::Corrupted);
}
