use hash256_miner::hexfmt::{challenge_hex, challenge_hex_prefix};

#[test]
fn challenge_in_hex() {
    let mut c = [0u8; 32];
    c[0] = 0xab;
    c[1] = 0x01;
    c[2] = 0xf0;
    c[3] = 0x9c;
    c[31] = 0xff;
    let h = challenge_hex(&c);
    assert_eq!(h.len(), 64);
    assert!(h.starts_with("ab01f09c"));
    assert!(h.ends_with("ff"));
    assert_eq!(challenge_hex_prefix(&c), "ab01f09c");
    assert_eq!(challenge_hex_prefix(&c), &h[..8]);
}
