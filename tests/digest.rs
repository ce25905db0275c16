use bootc::digest::{compute_boot_digest, DigestError};

#[test]
fn boot_digest_is_sha256_of_both_files() {
    let d = compute_boot_digest(b"ab", Some(b"c")).unwrap();
    assert_eq!(d, "ba7816bf8f01cfea414140de5dae2223b00361a396177a9cb410ff61f20015ad");
    assert_eq!(d.len(), 64);
    let empty = compute_boot_digest(b"", Some(b"")).unwrap();
    assert_eq!(empty, "e3b0c44298fc1c149afbf4c8996fb92427ae41e4649b934ca495991b7852b855");
}

#[test]
fn boot_digest_needs_initramfs() {
    assert_eq!(compute_boot_digest(b"kernel", None), Err(DigestError::MissingInitramfs));
}
