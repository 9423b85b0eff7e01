use aquaflow::pair::TokenPair;
use aquaflow::{Address, U256};

#[test]
fn address_bytes_round_trip() {
    let mut bytes = [0u8; 20];
    for (i, b) in bytes.iter_mut().enumerate() {
        *b = (i as u8) * 13 + 1;
    }
    let a = Address::new(bytes);
    assert_eq!(a.to_bytes(), bytes.to_vec());
    let mut low = [0u8; 20];
    low[19] = 0x34;
    low[18] = 0x12;
    assert_eq!(Address::new(low).word(), U256::from_u64(0x1234));
    assert!(Address::zero().is_zero());
    assert!(!a.is_zero());
}

#[test]
fn token_pair_is_normalized() {
    let small = Address::new([1u8; 20]);
    let mut b = [1u8; 20];
    b[0] = 2;
    let large = Address::new(b);
    assert!(small.lt(&large));
    assert!(!large.lt(&small));
    let p = TokenPair::new(large, small);
    assert_eq!(p, TokenPair::new(small, large));
    assert_eq!(p.token_a, small);
    assert_eq!(p.token_b, large);
}
