use schema_index::digest::url_hash;
use schema_index::hexenc::hex_encode;
use sha2::Digest;

#[test]
fn hex_encode_known_bytes() {
    assert_eq!(hex_encode(&[0x00u8, 0xff, 0x1a]), "00ff1a");
    assert_eq!(hex_encode(&[]), "");
    assert_eq!(hex_encode(&[0x0fu8, 0xf0]), "0ff0");
}

#[test]
fn hex_encode_matches_hex_crate() {
    let bytes: Vec<u8> = (0u16..=255).map(|b| b as u8).collect();
    assert_eq!(hex_encode(bytes.as_slice()), hex::encode(&bytes));
}

#[test]
fn url_hash_known_vector() {
    // The well-known SHA-256 digest of "abc".
    assert_eq!(
        url_hash("abc"),
        "ba7816bf8f01cfea414140de5dae2223b00361a396177a9cb410ff61f20015ad"
    );
}

#[test]
fn url_hash_matches_sha2_and_hex() {
    let url = "https://example.com/schemas/foo.json";
    let expected = hex::encode(sha2::Sha256::digest(url.as_bytes()));
    assert_eq!(url_hash(url), expected);
}

#[test]
fn url_hash_pure_and_distinguishing() {
    let a = url_hash("https://one.example/schemas/x.json");
    let b = url_hash("https://one.example/schemas/x.json");
    let c = url_hash("https://two.example/schemas/x.json");
    assert_eq!(a, b);
    assert_ne!(a, c);
}
