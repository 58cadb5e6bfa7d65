use nautilus::error::Error;
use nautilus::hash::{chain, digest, seed};
use nautilus::hex::{from_hex, to_hex};
use nautilus::sha256::sha256_bytes;

#[test]
fn sha256_of_empty_message() {
    assert_eq!(
        to_hex(&sha256_bytes(b"")),
        "e3b0c44298fc1c149afbf4c8996fb92427ae41e4649b934ca495991b7852b855"
    );
}

#[test]
fn sha256_of_abc() {
    assert_eq!(
        digest(b"abc"),
        "ba7816bf8f01cfea414140de5dae2223b00361a396177a9cb410ff61f20015ad"
    );
}

#[test]
fn sha256_of_two_block_message() {
    assert_eq!(
        digest(b"abcdbcdecdefdefgefghfghighijhijkijkljklmklmnlmnomnopnopq"),
        "248d6a61d20638b8e5c026930c3e6039a33ce45964ff2167f6ecedd419db06c1"
    );
}

#[test]
fn sha256_of_a_million_a() {
    let msg = vec![b'a'; 1_000_000];
    assert_eq!(
        digest(&msg),
        "cdc76e5c9914fb9281a1c7e284d73e67f1809a48a497200e046d39ccc7112cd0"
    );
}

#[test]
fn sha256_at_padding_boundaries() {
    assert_eq!(
        digest(&vec![0u8; 55]),
        "02779466cdec163811d078815c633f21901413081449002f24aa3e80f0b88ef7"
    );
    assert_eq!(
        digest(&vec![0u8; 56]),
        "d4817aa5497628e7c77e6b606107042bbba3130888c5f47a375e6179be789fbb"
    );
    assert_eq!(
        digest(&vec![0u8; 64]),
        "f5a5fd42d16a20302798ef6ed309979b43003d2320d9f0e8ea9831a92759fb4b"
    );
}

#[test]
fn digest_is_order_sensitive() {
    assert_ne!(digest(b"ab"), digest(b"ba"));
}

#[test]
fn hex_round_trip() {
    let bytes: Vec<u8> = (0u8..=255).collect();
    let text = to_hex(&bytes);
    assert_eq!(text.len(), 512);
    assert!(text.starts_with("000102030405060708090a0b0c0d0e0f10"));
    assert!(text.ends_with("fdfeff"));
    assert_eq!(from_hex(&text), Some(bytes));
}

#[test]
fn from_hex_rejects_malformed_text() {
    assert_eq!(from_hex("abc"), None);
    assert_eq!(from_hex("zz"), None);
    assert_eq!(from_hex("AB"), None);
    assert_eq!(from_hex("é0"), None);
    assert_eq!(from_hex(""), Some(vec![]));
    assert_eq!(from_hex("00ff"), Some(vec![0, 255]));
}

#[test]
fn seed_is_sixty_four_zeros() {
    assert_eq!(seed(), "0".repeat(64));
}

#[test]
fn chain_hashes_the_decoded_inputs_in_order() {
    let a = digest(b"a");
    let b = digest(b"b");
    let mut raw = from_hex(&a).unwrap();
    raw.extend(from_hex(&b).unwrap());
    raw.extend(vec![0u8; 32]);
    assert_eq!(chain(&a, &b, &seed()), Ok(digest(&raw)));
    assert_ne!(chain(&a, &b, &seed()), chain(&b, &a, &seed()));
}

#[test]
fn chain_rejects_malformed_digests() {
    let a = digest(b"a");
    assert_eq!(chain("abcd", &a, &a), Err(Error::InvalidState));
    assert_eq!(chain(&a, "", &a), Err(Error::InvalidState));
    let upper = a.to_uppercase();
    assert_eq!(chain(&a, &a, &upper), Err(Error::InvalidState));
    let long = format!("{}00", a);
    assert_eq!(chain(&long, &a, &a), Err(Error::InvalidState));
}
