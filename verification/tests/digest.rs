use openlogi::digest::{cached_matches, sha256_hex, to_hex_lower};

const ABC_SHA256: &str = "ba7816bf8f01cfea414140de5dae2223b00361a396177a9cb410ff61f20015ad";
const EMPTY_SHA256: &str = "e3b0c44298fc1c149afbf4c8996fb92427ae41e4649b934ca495991b7852b855";

#[test]
fn sha256_hex_of_abc() {
    assert_eq!(sha256_hex(b"abc"), ABC_SHA256);
}

#[test]
fn sha256_hex_of_empty() {
    assert_eq!(sha256_hex(b""), EMPTY_SHA256);
}

#[test]
fn sha256_hex_is_64_lower_hex_digits() {
    let h = sha256_hex(b"The quick brown fox jumps over the lazy dog");
    assert_eq!(h, "d7a8fbb307d7809469ca9abcb0082e4f8d5651e46d3cdb762d02d0bf37c9e592");
    assert_eq!(h.len(), 64);
    assert!(h.chars().all(|c| c.is_ascii_digit() || ('a'..='f').contains(&c)));
}

#[test]
fn hex_encoding_two_digits_per_byte() {
    assert_eq!(to_hex_lower(&[0xbe, 0xef, 0x00, 0x0f, 0xa0]), "beef000fa0");
    assert_eq!(to_hex_lower(&[]), "");
}

#[test]
fn cached_copy_matches_its_own_digest() {
    assert!(cached_matches(Some(b"abc"), ABC_SHA256));
}

#[test]
fn cached_copy_matches_case_insensitively() {
    let upper = ABC_SHA256.to_ascii_uppercase();
    assert!(cached_matches(Some(b"abc"), &upper));
    assert!(cached_matches(Some(b"abc"), "BA7816BF8f01cfea414140de5dae2223b00361a396177a9cb410ff61f20015AD"));
}

#[test]
fn cached_copy_with_other_digest_does_not_match() {
    assert!(!cached_matches(Some(b"abd"), ABC_SHA256));
    assert!(!cached_matches(Some(b"abc"), EMPTY_SHA256));
    assert!(!cached_matches(Some(b"abc"), &ABC_SHA256[..63]));
    assert!(!cached_matches(Some(b"abc"), ""));
}

#[test]
fn unreadable_cached_copy_never_matches() {
    assert!(!cached_matches(None, ABC_SHA256));
    assert!(!cached_matches(None, ""));
}
