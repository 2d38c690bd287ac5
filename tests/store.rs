use pine::codec::{encode_records, parse_records, split_on};
use pine::{Secret, StoreError, Storage};

fn record(username: &str, secret: Secret, description: &str) -> (String, Secret, String) {
    (username.to_string(), secret, description.to_string())
}

fn secret_parts(s: &Secret) -> (&'static str, String) {
    match s {
        Secret::Password(v) => ("password", v.clone()),
        Secret::Pin(v) => ("pin", v.clone()),
    }
}

fn same_records(a: &[(String, Secret, String)], b: &[(String, Secret, String)]) -> bool {
    a.len() == b.len()
        && a.iter().zip(b.iter()).all(|(x, y)| {
            x.0 == y.0 && secret_parts(&x.1) == secret_parts(&y.1) && x.2 == y.2
        })
}

#[test]
fn split_on_keeps_empty_pieces() {
    assert_eq!(split_on("a,,b,", ','), vec!["a", "", "b", ""]);
    assert_eq!(split_on("", ','), vec![""]);
}

#[test]
fn encode_records_writes_lines() {
    let records = vec![
        record("alice", Secret::Password("hunter2".to_string()), "work login"),
        record("bob", Secret::Pin("1234".to_string()), ""),
    ];
    assert_eq!(encode_records(&records), "alice,password:hunter2,work login\nbob,pin:1234,");
}

#[test]
fn encode_no_records_is_empty() {
    assert_eq!(encode_records(&Vec::new()), "");
}

#[test]
fn parse_records_reads_lines() {
    let parsed = parse_records("alice,password:hunter2,work login\n\nbob,pin:12:34")
        .ok()
        .unwrap();
    let expected = vec![
        record("alice", Secret::Password("hunter2".to_string()), "work login"),
        record("bob", Secret::Pin("12:34".to_string()), ""),
    ];
    assert!(same_records(&parsed, &expected));
}

#[test]
fn parse_records_keeps_third_field_only() {
    let parsed = parse_records("u,password:p,d,extra").ok().unwrap();
    assert!(same_records(&parsed, &[record("u", Secret::Password("p".to_string()), "d")]));
}

#[test]
fn parse_records_rejects_unknown_kind() {
    assert!(matches!(parse_records("u,token:abc,d"), Err(StoreError::DecodeError)));
}

#[test]
fn parse_records_rejects_missing_secret() {
    assert!(matches!(parse_records("just a name"), Err(StoreError::DecodeError)));
    assert!(matches!(parse_records("u,nocolon,d"), Err(StoreError::DecodeError)));
}

#[test]
fn codec_round_trip() {
    let records = vec![
        record("alice", Secret::Password("hunter2".to_string()), "work login"),
        record("ünï", Secret::Pin("0042".to_string()), "café"),
        record("", Secret::Password(String::new()), ""),
    ];
    let parsed = parse_records(&encode_records(&records)).ok().unwrap();
    assert!(same_records(&parsed, &records));
}

#[test]
fn key_derivation_is_deterministic() {
    let a = Storage::new_from_secret("    ");
    let b = Storage::new_from_secret("    ");
    assert_eq!(a.key, b.key);
    let c = Storage::new_from_secret("another passphrase");
    assert_ne!(a.key, c.key);
}

#[test]
fn key_is_not_the_passphrase() {
    let a = Storage::new_from_secret("0123456789abcdef");
    assert_ne!(&a.key[..], b"0123456789abcdef");
}

#[test]
fn storage_points_at_default_file() {
    let s = Storage::new_from_secret("x");
    assert_eq!(s.file_path(), ".store/store.aes");
}

#[test]
fn seal_matches_aes128_known_answer() {
    let mut key = [0u8; 16];
    for (i, k) in key.iter_mut().enumerate() {
        *k = i as u8;
    }
    let storage = Storage { key, file_name: "f".to_string(), directory: "d".to_string() };
    let plain: Vec<u8> = (0..16u8).map(|i| i * 0x11).collect();
    let sealed = storage.seal_bytes(&plain);
    let expected = [
        0x69, 0xc4, 0xe0, 0xd8, 0x6a, 0x7b, 0x04, 0x30, 0xd8, 0xcd, 0xb7, 0x80, 0x70, 0xb4, 0xc5,
        0x5a,
    ];
    assert_eq!(sealed, expected.to_vec());
    assert_eq!(storage.open_bytes(&sealed).ok().unwrap(), plain);
}

#[test]
fn seal_pads_short_chunk_to_block() {
    let storage = Storage::new_from_secret("k");
    let sealed = storage.seal_bytes(&[b'x'; 33]);
    assert_eq!(sealed.len(), 48);
    assert_eq!(storage.open_bytes(&sealed).ok().unwrap(), vec![b'x'; 33]);
}

#[test]
fn full_chunk_that_reads_as_padding_loses_bytes() {
    let storage = Storage::new_from_secret("k");
    let sealed = storage.seal_bytes(&[1u8; 16]);
    assert_eq!(storage.open_bytes(&sealed).ok().unwrap(), vec![1u8; 15]);
}

#[test]
fn identical_blocks_encrypt_identically() {
    let storage = Storage::new_from_secret("k");
    let sealed = storage.seal_bytes(&[b'a'; 32]);
    assert_eq!(sealed[..16], sealed[16..]);
}

#[test]
fn save_then_fetch_scenario() {
    let storage = Storage::new_from_secret("    ");
    let records = vec![record("alice", Secret::Password("hunter2".to_string()), "work login")];
    let cipher = storage.encrypt_records(&records);
    assert_eq!(cipher.len(), 48);
    assert_ne!(&cipher[..5], b"alice");
    let fetched = storage.decrypt_records(&cipher).ok().unwrap();
    assert_eq!(fetched.len(), 1);
    assert_eq!(fetched[0].0, "alice");
    assert!(matches!(&fetched[0].1, Secret::Password(p) if p == "hunter2"));
    assert_eq!(fetched[0].2, "work login");
}

#[test]
fn save_then_fetch_many_records() {
    let storage = Storage::new_from_secret("pass");
    let records = vec![
        record("alice", Secret::Password("hunter2".to_string()), "work login"),
        record("bob", Secret::Pin("9876".to_string()), "bank card"),
        record("carol", Secret::Password("exactly sixteen!".to_string()), ""),
    ];
    let fetched = storage.decrypt_records(&storage.encrypt_records(&records)).ok().unwrap();
    assert!(same_records(&fetched, &records));
}

#[test]
fn fetch_empty_store_gives_no_records() {
    let storage = Storage::new_from_secret("pass");
    let cipher = storage.encrypt_records(&Vec::new());
    assert!(cipher.is_empty());
    assert_eq!(storage.decrypt_records(&cipher).ok().unwrap().len(), 0);
}

#[test]
fn fetch_unaligned_ciphertext_is_pad_error() {
    let storage = Storage::new_from_secret("    ");
    let cipher = [0u8; 17];
    assert!(matches!(storage.decrypt_records(&cipher), Err(StoreError::PadError)));
}

#[test]
fn store_error_messages() {
    assert_eq!(StoreError::PadError.message(), "error while padding");
    assert_eq!(StoreError::UnpadError.message(), "error while unpadding");
    assert_eq!(StoreError::DecodeError.message(), "error while decoding");
}

#[test]
fn io_error_message_is_its_text() {
    let e = std::io::Error::new(std::io::ErrorKind::NotFound, "no store here");
    let text = e.to_string();
    assert_eq!(StoreError::IO(e).message(), text);
}

#[test]
fn equal_full_chunks_give_equal_blocks_in_place() {
    let storage = Storage::new_from_secret("k");
    let mut plain = b"0123456789abcdefXXXXXXXXXXXXXXXX0123456789abcdef".to_vec();
    plain.extend_from_slice(b"tail");
    let sealed = storage.seal_bytes(&plain);
    assert_eq!(sealed.len(), 64);
    assert_eq!(sealed[0..16], sealed[32..48]);
    assert_ne!(sealed[0..16], sealed[16..32]);
}
