use deepseek_v2_lite::digest::{digest_text, token_bytes, token_sha256};

#[test]
fn tokens_are_little_endian() {
    assert_eq!(
        token_bytes(&[258, 0x0403_0201, u32::MAX]),
        vec![2, 1, 0, 0, 1, 2, 3, 4, 255, 255, 255, 255]
    );
    assert!(token_bytes(&[]).is_empty());
}

#[test]
fn different_tokens_have_different_bytes() {
    assert_ne!(token_bytes(&[1, 256]), token_bytes(&[256, 1]));
    assert_ne!(token_bytes(&[0]), token_bytes(&[0, 0]));
}

#[test]
fn digest_text_is_lower_case() {
    assert_eq!(digest_text(&[0, 0x0f, 0xa5, 0xff]), "000fa5ff");
    assert_eq!(digest_text(&[]), "");
}

#[test]
fn fingerprint_of_no_tokens() {
    assert_eq!(
        token_sha256(&[]),
        "e3b0c44298fc1c149afbf4c8996fb92427ae41e4649b934ca495991b7852b855"
    );
}

#[test]
fn fingerprint_of_some_tokens() {
    assert_eq!(
        token_sha256(&[7, 100_001, u32::MAX]),
        "d5fa14dcbb5908d183f3847ae537ed9424a2d99ea06feda8e9bd7ea3ee0e2597"
    );
}
