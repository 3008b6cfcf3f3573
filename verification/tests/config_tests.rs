use hash256_miner::config::{is_white_space_char, parse_u64, primary_endpoint, priority_fee_gwei, rpc_endpoints};

#[test]
fn parse_u64_like_std() {
    let cases = [
        "0", "2", "+7", "18446744073709551615", "18446744073709551616", "", "+", "-", "-0", " 2",
        "2 ", "1_000", "0x10", "007", "99999999999999999999999", "+00", "١",
    ];
    for s in cases {
        assert_eq!(parse_u64(s), s.parse::<u64>().ok(), "{:?}", s);
    }
}

#[test]
fn priority_fee_defaults_to_two() {
    assert_eq!(priority_fee_gwei(None), 2);
    assert_eq!(priority_fee_gwei(Some("abc")), 2);
    assert_eq!(priority_fee_gwei(Some("")), 2);
    assert_eq!(priority_fee_gwei(Some("-5")), 2);
    assert_eq!(priority_fee_gwei(Some("15")), 15);
    assert_eq!(priority_fee_gwei(Some("0")), 0);
}

#[test]
fn endpoints_split_and_trimmed() {
    let s = "https://ethereum-rpc.publicnode.com, https://rpc.mevblocker.io/fast ,https://rpc.flashbots.net/fast";
    assert_eq!(
        rpc_endpoints(s),
        vec![
            "https://ethereum-rpc.publicnode.com".to_string(),
            "https://rpc.mevblocker.io/fast".to_string(),
            "https://rpc.flashbots.net/fast".to_string(),
        ]
    );
}

#[test]
fn endpoints_like_std_split_trim() {
    let cases = ["", ",", " a ,, b ", "\u{3000}x\u{a0},\ty\n", "single", ",,", "é , ü"];
    for s in cases {
        let expected: Vec<String> = s.split(',').map(|p| p.trim().to_string()).collect();
        assert_eq!(rpc_endpoints(s), expected, "{:?}", s);
    }
}

#[test]
fn white_space_like_std() {
    for u in 0..=0x10ffffu32 {
        if let Some(c) = char::from_u32(u) {
            assert_eq!(is_white_space_char(c), c.is_whitespace(), "U+{:04X}", u);
        }
    }
}

#[test]
fn primary_endpoint_is_the_first_connected() {
    assert_eq!(primary_endpoint(&vec![false, true, true]), Some(1));
    assert_eq!(primary_endpoint(&vec![true]), Some(0));
    assert_eq!(primary_endpoint(&vec![false, false]), None);
    assert_eq!(primary_endpoint(&vec![]), None);
}
