use aquaflow::amm::{optimized_constant_product, price_impact_bps, quote, secure_quote};
use aquaflow::{Error, U256};

fn w(x: u128) -> U256 {
    U256::from_u128(x)
}

#[test]
fn test_optimized_constant_product() {
    let reserve_in = U256::from_u64(1000000u64);
    let reserve_out = U256::from_u64(1000000u64);
    let amount_in = U256::from_u64(1000u64);

    let result = optimized_constant_product(reserve_in, reserve_out, amount_in, 30);
    assert!(result.is_ok());

    // Should be approximately 997 (1000 - 0.3% fee)
    let amount_out = result.unwrap();
    assert!(amount_out > U256::from_u64(990) && amount_out < U256::from_u64(1000));
}

#[test]
fn quote_matches_worked_example() {
    // 1000 * 9970 / 10000 = 997, then floor(997 * 1_000_000 / 1_000_997) = 996.
    assert_eq!(quote(w(1_000_000), w(1_000_000), w(1000), w(30)), Ok(w(996)));
    assert_eq!(optimized_constant_product(w(1_000_000), w(1_000_000), w(1000), 30), Ok(w(996)));
    assert_eq!(optimized_constant_product(w(1_000_000), w(1_000_000), w(1000), 25), Ok(w(996)));
}

#[test]
fn quote_is_monotone_and_below_spot() {
    let mut last = U256::zero();
    for amount in [1u128, 2, 10, 1000, 1001, 5000, 100_000] {
        let out = quote(w(1_000_000), w(2_000_000), w(amount), w(30)).unwrap();
        assert!(out >= last);
        // out * reserve_in < amount * reserve_out
        assert!(out.l0 as u128 * 1_000_000 < amount * 2_000_000);
        last = out;
    }
}

#[test]
fn quote_errors() {
    assert_eq!(quote(w(0), w(10), w(5), w(30)), Err(Error::InsufficientLiquidity));
    assert_eq!(quote(w(10), w(0), w(5), w(30)), Err(Error::InsufficientLiquidity));
    assert_eq!(quote(w(10), w(10), w(5), w(1001)), Err(Error::FeeTooHigh));
    let huge = U256 { l0: 0, l1: 0, l2: 0, l3: 1 << 62 };
    assert_eq!(quote(w(10), w(10), huge, w(30)), Err(Error::ArithmeticOverflow));
    assert_eq!(quote(w(10), huge, w(1_000_000), w(30)), Err(Error::ArithmeticOverflow));
}

#[test]
fn secure_quote_applies_liquidity_floor() {
    let floor: u128 = 1_000_000_000_000_000_000_000;
    assert_eq!(secure_quote(w(floor - 1), w(floor), w(1000), w(30)), Err(Error::InsufficientLiquidity));
    assert_eq!(secure_quote(w(0), w(floor), w(1000), w(30)), Err(Error::InsufficientLiquidity));
    assert_eq!(
        secure_quote(w(floor), w(floor), w(1_000_000_000_000_000_000), w(30)),
        Ok(w(996_006_981_039_903_216))
    );
}

#[test]
fn price_impact_values() {
    assert_eq!(price_impact_bps(w(1_000_000), w(1000)), 10);
    assert_eq!(price_impact_bps(w(1_000_000), w(49_999)), 499);
    assert_eq!(price_impact_bps(w(1_000_000), w(50_000)), 500);
    assert_eq!(price_impact_bps(w(1_000_000), w(900_000)), 500);
    assert_eq!(price_impact_bps(w(0), w(1)), 500);
    // amount * 10000 does not fit a word here: 2^250 * 10000 / 2^255 = 312.
    let amount = U256 { l0: 0, l1: 0, l2: 0, l3: 1 << 58 };
    let reserve = U256 { l0: 0, l1: 0, l2: 0, l3: 1 << 63 };
    assert_eq!(price_impact_bps(reserve, amount), 312);
    assert_eq!(price_impact_bps(amount, reserve), 500);
}

#[test]
fn rounding_can_tie_nearby_amounts() {
    // Outputs are rounded down, so a larger input may price the same.
    assert_eq!(quote(w(1_000_000), w(1_000_000), w(1), w(30)), Ok(U256::zero()));
    assert_eq!(quote(w(1_000_000), w(1_000_000), w(2), w(30)), Ok(U256::zero()));
}
