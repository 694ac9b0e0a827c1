use clipboard_vault::digest::{sha256_hex, token_hash};

#[test]
fn digests_are_lowercase_hexadecimal() {
    assert_eq!(sha256_hex(b""), "e3b0c44298fc1c149afbf4c8996fb92427ae41e4649b934ca495991b7852b855");
    assert_eq!(sha256_hex(b"abc"), "ba7816bf8f01cfea414140de5dae2223b00361a396177a9cb410ff61f20015ad");
}

#[test]
fn tokens_are_stored_as_digests() {
    assert_eq!(token_hash("hello"), "2cf24dba5fb0a30e26e83b2ac5b9e29e1b161e5c1fa7425e73043362938b9824");
    assert_ne!(token_hash("hello"), "hello");
}
