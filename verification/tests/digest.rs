use rollout_controller::digest::{digest_body, hash_to_digest};

#[test]
fn bodies_are_hashed() {
    assert_eq!(
        digest_body(b"hello world"),
        "sha256:b94d27b9934d3e08a52e52d7da7dabfac484efe37a5380ee9088f7ace2efcde9"
    );
    assert_eq!(
        digest_body(b""),
        "sha256:e3b0c44298fc1c149afbf4c8996fb92427ae41e4649b934ca495991b7852b855"
    );
}

#[test]
fn hashes_are_written_in_lower_case() {
    assert_eq!(hash_to_digest(&[0x00, 0x09, 0x0a, 0xff]), "sha256:00090aff");
    assert_eq!(hash_to_digest(&[]), "sha256:");
}

#[test]
fn different_hashes_have_different_digests() {
    assert_ne!(hash_to_digest(&[1, 2]), hash_to_digest(&[2, 1]));
}
