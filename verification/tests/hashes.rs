use elba::util::hash::{hex_digest, hexify_hash};

#[test]
fn digests_are_written_in_lower_case() {
    assert_eq!(hexify_hash(&[0x00, 0x0f, 0xa9, 0xff]), "000fa9ff");
    assert_eq!(hexify_hash(&[]), "");
}

#[test]
fn digest_is_that_of_sha256() {
    assert_eq!(
        hex_digest(b"abc"),
        "ba7816bf8f01cfea414140de5dae2223b00361a396177a9cb410ff61f20015ad"
    );
    assert_eq!(
        hex_digest(b""),
        "e3b0c44298fc1c149afbf4c8996fb92427ae41e4649b934ca495991b7852b855"
    );
}

#[test]
fn different_messages_have_different_digests() {
    assert_ne!(hex_digest(b"left"), hex_digest(b"right"));
    assert_eq!(hex_digest(b"left").len(), 64);
}

#[test]
fn different_bytes_are_written_differently() {
    for left in 0u8..=255 {
        assert_eq!(hexify_hash(&[left]), format!("{:02x}", left));
    }
}
