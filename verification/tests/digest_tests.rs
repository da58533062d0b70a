use backup_suite::digest::{hash_bytes, hash_matches};
use backup_suite::strutil::str_eq;

#[test]
fn digest_known_vector_abc() {
    let data: Vec<u8> = b"abc".to_vec();
    let h = hash_bytes(&data);
    assert_eq!(
        h,
        "ba7816bf8f01cfea414140de5dae2223b00361a396177a9cb410ff61f20015ad"
    );
}

#[test]
fn digest_known_vector_empty() {
    let data: Vec<u8> = Vec::new();
    let h = hash_bytes(&data);
    assert_eq!(
        h,
        "e3b0c44298fc1c149afbf4c8996fb92427ae41e4649b934ca495991b7852b855"
    );
}

#[test]
fn digest_is_deterministic() {
    let data: Vec<u8> = b"the same bytes every time".to_vec();
    let h1 = hash_bytes(&data);
    let h2 = hash_bytes(&data);
    assert_eq!(h1, h2);
}

#[test]
fn digest_changes_when_one_byte_changes() {
    let data: Vec<u8> = b"an archive full of bytes".to_vec();
    let mut tampered = data.clone();
    tampered[3] ^= 0x01;
    assert_ne!(hash_bytes(&data), hash_bytes(&tampered));
}

#[test]
fn digest_is_64_lowercase_hex_chars() {
    let data: Vec<u8> = b"\x00\xff\x10\x7f".to_vec();
    let h = hash_bytes(&data);
    assert_eq!(h.len(), 64);
    assert!(h.chars().all(|c| c.is_ascii_hexdigit() && !c.is_ascii_uppercase()));
}

#[test]
fn hash_matches_agrees_with_recomputation() {
    let data: Vec<u8> = b"verify me".to_vec();
    let h = hash_bytes(&data);
    assert!(hash_matches(h.as_str(), &data));
    assert!(!hash_matches(
        "0000000000000000000000000000000000000000000000000000000000000000",
        &data
    ));
}

#[test]
fn str_eq_compares_characters() {
    assert!(str_eq("metadata.json", "metadata.json"));
    assert!(!str_eq("metadata.json", "metadata.jso"));
    assert!(!str_eq("a", "b"));
    assert!(str_eq("", ""));
}
