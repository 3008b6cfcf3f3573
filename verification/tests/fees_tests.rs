use hash256_miner::fees::{gwei_to_wei, plan_fees, FeePlan, FeeQuote, Uint256};

#[test]
fn two_gwei_in_wei() {
    assert_eq!(gwei_to_wei(2), Uint256 { hi: 0, lo: 2_000_000_000 });
    assert_eq!(gwei_to_wei(u64::MAX), Uint256 { hi: 0, lo: u64::MAX as u128 * 1_000_000_000 });
}

#[test]
fn add_carries_into_high_half() {
    let a = Uint256 { hi: 1, lo: u128::MAX };
    let b = Uint256::from_u128(1);
    assert_eq!(a.checked_add(&b), Some(Uint256 { hi: 2, lo: 0 }));
}

#[test]
fn add_overflow_is_refused() {
    let a = Uint256 { hi: u128::MAX, lo: u128::MAX };
    assert_eq!(a.checked_add(&Uint256::from_u128(1)), None);
    assert_eq!(a.checked_add(&Uint256::from_u128(0)), Some(a));
}

#[test]
fn eip1559_quote_is_boosted() {
    let p = gwei_to_wei(2);
    let q = FeeQuote::Eip1559 { max_fee_per_gas: Uint256::from_u128(30_000_000_000) };
    assert_eq!(
        plan_fees(&q, &p),
        Some(FeePlan::Eip1559 {
            max_fee_per_gas: Uint256::from_u128(32_000_000_000),
            max_priority_fee_per_gas: Uint256::from_u128(2_000_000_000),
        })
    );
}

#[test]
fn legacy_quote_is_boosted() {
    let p = gwei_to_wei(3);
    let q = FeeQuote::Legacy { gas_price: Uint256::from_u128(10_000_000_000) };
    assert_eq!(plan_fees(&q, &p), Some(FeePlan::Legacy { gas_price: Uint256::from_u128(13_000_000_000) }));
}

#[test]
fn no_quote_leaves_fees() {
    assert_eq!(plan_fees(&FeeQuote::Unavailable, &gwei_to_wei(2)), Some(FeePlan::Unchanged));
}

#[test]
fn boost_overflow_is_refused() {
    let q = FeeQuote::Legacy { gas_price: Uint256 { hi: u128::MAX, lo: u128::MAX } };
    assert_eq!(plan_fees(&q, &gwei_to_wei(1)), None);
}
