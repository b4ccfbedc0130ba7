use split_settlement::hex::{bytes_to_hex_upper, hash_to_hex_upper};

#[test]
fn hex_renders_each_byte_upper_case() {
    assert_eq!(bytes_to_hex_upper(&[0x00, 0x0f, 0xa5, 0xff]), "000FA5FF");
    assert_eq!(bytes_to_hex_upper(&[]), "");
}

#[test]
fn digest_renders_as_sixty_four_digits() {
    let mut digest = [0u8; 32];
    digest[0] = 0xab;
    digest[31] = 0x01;
    let text = hash_to_hex_upper(&digest);
    assert_eq!(text.len(), 64);
    assert!(text.starts_with("AB00"));
    assert!(text.ends_with("0001"));
}
