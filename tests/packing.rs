use aquaflow::packing::{PackedPool, RouteStep, StackRoute};
use aquaflow::{Address, Error, U256};

fn word_pow2(k: u32) -> U256 {
    let mut limbs = [0u64; 4];
    limbs[(k / 64) as usize] = 1u64 << (k % 64);
    U256 { l0: limbs[0], l1: limbs[1], l2: limbs[2], l3: limbs[3] }
}

#[test]
fn test_token_packing() {
    let token_a = Address::new([1u8; 20]);
    let token_b = Address::new([2u8; 20]);
    let fee = 300u32;

    let packed = PackedPool::pack_token_data(token_a, token_b, fee);
    let (unpacked_a, unpacked_b, unpacked_fee) = PackedPool::unpack_token_data(packed);

    // The word holds 256 bits: token B keeps only its low 96 bits above
    // token A, and the fee, shifted up by 320 bits, does not fit at all.
    assert_eq!(token_a, unpacked_a);
    let mut low_b = [0u8; 20];
    for byte in low_b.iter_mut().skip(8) {
        *byte = 2;
    }
    assert_eq!(Address::new(low_b), unpacked_b);
    assert_eq!(0, unpacked_fee);
}

#[test]
fn token_packing_round_trips_when_token_b_fits_96_bits() {
    let token_a = Address::new([0xab; 20]);
    let mut b = [0u8; 20];
    for (i, byte) in b.iter_mut().enumerate().skip(8) {
        *byte = i as u8;
    }
    let token_b = Address::new(b);
    let packed = PackedPool::pack_token_data(token_a, token_b, 0);
    assert_eq!(PackedPool::unpack_token_data(packed), (token_a, token_b, 0));
}

#[test]
fn token_packing_layout() {
    let packed = PackedPool::pack_token_data(Address::new([0u8; 20]), Address::new([0u8; 20]), 7);
    assert_eq!(packed, U256::zero());
    let mut one = [0u8; 20];
    one[19] = 1;
    let packed = PackedPool::pack_token_data(Address::new(one), Address::new(one), 0);
    let mut expected = word_pow2(160);
    expected.l0 = 1;
    assert_eq!(packed, expected);
}

#[test]
fn test_reserve_packing() {
    let reserve_a = U256::from_u64(1000000u64);
    let reserve_b = U256::from_u64(2000000u64);

    let packed = PackedPool::pack_reserves(reserve_a, reserve_b);
    let (unpacked_a, unpacked_b) = PackedPool::unpack_reserves(packed);

    assert_eq!(reserve_a, unpacked_a);
    assert_eq!(reserve_b, unpacked_b);
}

#[test]
fn reserve_packing_is_lossy_above_2_pow_128() {
    let mut big = word_pow2(128);
    big.l0 = 5;
    let packed = PackedPool::pack_reserves(big, U256::from_u64(9));
    let (a, b) = PackedPool::unpack_reserves(packed);
    assert_eq!(a, U256::from_u64(5));
    assert_eq!(b, U256::from_u64(9));
    assert_ne!(a, big);
}

#[test]
fn reserve_packing_layout() {
    let packed = PackedPool::pack_reserves(U256::from_u64(1), U256::from_u64(2));
    let mut expected = word_pow2(128);
    expected.l0 = 2;
    assert_eq!(packed, expected);
}

fn step(id: u64) -> RouteStep {
    RouteStep {
        pool_id: U256::from_u64(id),
        token_in: Address::new([1u8; 20]),
        token_out: Address::new([2u8; 20]),
        amount_in: U256::from_u64(100),
        amount_out: U256::from_u64(90),
    }
}

#[test]
fn stack_route_holds_steps_up_to_capacity() {
    let mut route: StackRoute<2> = StackRoute::new();
    assert!(route.get_steps().is_empty());
    assert_eq!(route.add_step(step(1)), Ok(()));
    assert_eq!(route.add_step(step(2)), Ok(()));
    assert_eq!(route.add_step(step(3)), Err(Error::RouteTooLong));
    assert_eq!(route.get_steps(), vec![step(1), step(2)]);
    assert_eq!(route.length, 2);
}
