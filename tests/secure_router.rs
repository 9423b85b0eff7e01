use aquaflow::secure_router::{SecureAquaFlowRouter, SecureRouteStep, ValidatedIntent};
use aquaflow::secure_router::calculate_total_price_impact;
use aquaflow::{Address, Error, U256};

const ONE: u128 = 1_000_000_000_000_000_000;
const START: u64 = 1_000_000;

fn addr(b: u8) -> Address {
    Address::new([b; 20])
}

fn w(x: u128) -> U256 {
    U256::from_u128(x)
}

/// A router with `n` verified pools between tokens 10 and 11. A pool starts
/// at the minimum liquidity, so once a trade has drained its output side it
/// no longer prices swaps and the next pool takes over.
fn router_with_pools(n: u32) -> (SecureAquaFlowRouter, U256) {
    let owner = addr(1);
    let mut r = SecureAquaFlowRouter::initialize(owner, addr(2), addr(3), w(START as u128)).unwrap();
    r.set_pool_validator(owner, addr(5), true).unwrap();
    let mut first = None;
    for k in 0..n {
        let mut pool_address = [0xee; 20];
        pool_address[0..4].copy_from_slice(&k.to_be_bytes());
        let id = r
            .add_secure_pool(owner, w(START as u128), addr(10), addr(11), Address::new(pool_address), w(30))
            .unwrap();
        r.verify_pool(addr(5), id).unwrap();
        first.get_or_insert(id);
    }
    (r, first.unwrap())
}

fn router_with_pool() -> (SecureAquaFlowRouter, U256) {
    router_with_pools(1)
}

fn intent(user: Address, amount: u128, now: u64, nonce: u64) -> ValidatedIntent {
    ValidatedIntent {
        user,
        token_in: addr(10),
        token_out: addr(11),
        amount_in: w(amount),
        min_amount_out: U256::zero(),
        deadline: w(now as u128 + 1000),
        max_slippage_bps: w(1000),
        nonce: U256::from_u64(nonce),
    }
}

#[test]
fn initialize_rejects_zero_roles() {
    let r = SecureAquaFlowRouter::initialize(Address::zero(), addr(2), addr(3), U256::zero());
    assert!(matches!(r, Err(Error::InvalidParameters)));
}

#[test]
fn executes_and_moves_reserves() {
    let (mut r, id) = router_with_pool();
    let user = addr(4);
    let out = r.execute_secure_intent(user, w(START as u128 + 10), intent(user, ONE, START + 10, 0));
    assert_eq!(out, Ok(w(996_006_981_039_903_216)));
    let pool = r.get_pool(id).unwrap();
    assert_eq!(pool.reserve_a, w(1000 * ONE + ONE));
    assert_eq!(pool.reserve_b, w(1000 * ONE - 996_006_981_039_903_216));
    assert_eq!(pool.last_updated, w(START as u128 + 10));
    assert_eq!(r.nonce_of(user), U256::from_u64(1));
    assert_eq!(r.daily_volume_of(user), w(ONE));
    assert_eq!(r.total_volume_24h(), w(ONE));
}

#[test]
fn replayed_nonce_is_refused() {
    let (mut r, _) = router_with_pools(2);
    let user = addr(4);
    let i = intent(user, ONE, START + 10, 0);
    assert!(r.execute_secure_intent(user, w(START as u128 + 10), i).is_ok());
    assert_eq!(r.execute_secure_intent(user, w(START as u128 + 10), i), Err(Error::InvalidNonce));
    assert_eq!(r.nonce_of(user), U256::from_u64(1));
    let next = intent(user, ONE, START + 10, 1);
    assert_eq!(r.execute_secure_intent(user, w(START as u128 + 10), next), Ok(w(996_006_981_039_903_216)));
    assert_eq!(r.nonce_of(user), U256::from_u64(2));
}

#[test]
fn deadline_at_now_is_expired_before_routing() {
    let owner = addr(1);
    let mut r = SecureAquaFlowRouter::initialize(owner, addr(2), addr(3), w(START as u128)).unwrap();
    let user = addr(4);
    let mut i = intent(user, ONE, START, 0);
    i.deadline = w(START as u128);
    // No pool exists, so routing would fail with NoPoolForPair.
    assert_eq!(r.execute_secure_intent(user, w(START as u128), i), Err(Error::TransactionExpired));
    i.deadline = w(START as u128 + 299);
    assert_eq!(r.execute_secure_intent(user, w(START as u128), i), Err(Error::DeadlineTooSoon));
    i.deadline = w(START as u128 + 300);
    assert_eq!(r.execute_secure_intent(user, w(START as u128), i), Err(Error::NoPoolForPair));
}

#[test]
fn unverified_pool_is_not_routed() {
    let owner = addr(1);
    let mut r = SecureAquaFlowRouter::initialize(owner, addr(2), addr(3), w(START as u128)).unwrap();
    let id = r.add_secure_pool(owner, w(START as u128), addr(10), addr(11), addr(20), w(30)).unwrap();
    assert_eq!(
        r.find_secure_route(addr(10), addr(11), w(ONE), w(1000)).map(|s| s.len()),
        Err(Error::NoVerifiedPoolAvailable)
    );
    let user = addr(4);
    assert_eq!(
        r.execute_secure_intent(user, w(START as u128), intent(user, ONE, START, 0)),
        Err(Error::NoVerifiedPoolAvailable)
    );
    assert_eq!(r.nonce_of(user), U256::zero());
    r.set_pool_validator(owner, addr(5), true).unwrap();
    assert_eq!(r.verify_pool(addr(6), id), Err(Error::Unauthorized));
    r.verify_pool(addr(5), id).unwrap();
    let steps = r.find_secure_route(addr(11), addr(10), w(ONE), w(1000)).unwrap();
    assert_eq!(steps.len(), 1);
    assert_eq!(steps[0].pool_id, id);
    assert_eq!(steps[0].price_impact_bps, U256::from_u64(10));
    assert!(steps[0].verified);
}

#[test]
fn route_prefers_larger_output_and_first_among_equals() {
    let owner = addr(1);
    let mut r = SecureAquaFlowRouter::initialize(owner, addr(2), addr(3), w(START as u128)).unwrap();
    let cheap = r.add_secure_pool(owner, w(START as u128), addr(10), addr(11), addr(20), w(30)).unwrap();
    let dear = r.add_secure_pool(owner, w(START as u128), addr(11), addr(10), addr(21), w(100)).unwrap();
    let twin = r.add_secure_pool(owner, w(START as u128), addr(10), addr(11), addr(22), w(30)).unwrap();
    r.set_pool_validator(owner, addr(5), true).unwrap();
    for id in [cheap, dear, twin] {
        r.verify_pool(addr(5), id).unwrap();
    }
    let steps = r.find_secure_route(addr(10), addr(11), w(ONE), w(1000)).unwrap();
    assert_eq!(steps[0].pool_id, cheap);
    assert_eq!(
        r.find_secure_route(addr(10), addr(11), w(ONE), w(5)).map(|s| s.len()),
        Err(Error::PriceImpactTooHigh)
    );
}

#[test]
fn duplicate_pool_address_is_refused() {
    let owner = addr(1);
    let mut r = SecureAquaFlowRouter::initialize(owner, addr(2), addr(3), w(START as u128)).unwrap();
    assert_eq!(r.add_secure_pool(owner, w(START as u128), addr(10), addr(11), addr(20), w(30)), Ok(U256::zero()));
    assert_eq!(
        r.add_secure_pool(owner, w(START as u128), addr(10), addr(11), addr(20), w(30)),
        Err(Error::PoolAlreadyExists)
    );
    assert_eq!(
        r.add_secure_pool(addr(9), w(START as u128), addr(10), addr(12), addr(21), w(30)),
        Err(Error::Unauthorized)
    );
    assert_eq!(
        r.add_secure_pool(owner, w(START as u128), addr(10), addr(10), addr(21), w(30)),
        Err(Error::IdenticalTokens)
    );
    assert_eq!(
        r.add_secure_pool(owner, w(START as u128), addr(10), Address::zero(), addr(21), w(30)),
        Err(Error::InvalidAddress)
    );
    assert_eq!(
        r.add_secure_pool(owner, w(START as u128), addr(10), addr(12), addr(21), w(1001)),
        Err(Error::FeeTooHigh)
    );
}

#[test]
fn pipeline_rejections() {
    let (mut r, _) = router_with_pool();
    let user = addr(4);
    let now = w(START as u128);
    assert_eq!(r.execute_secure_intent(addr(7), now, intent(user, ONE, START, 0)), Err(Error::UserMismatch));
    let mut i = intent(user, ONE, START, 0);
    i.token_out = addr(10);
    assert_eq!(r.execute_secure_intent(user, now, i), Err(Error::IdenticalTokens));
    i = intent(user, ONE, START, 0);
    i.token_in = Address::zero();
    assert_eq!(r.execute_secure_intent(user, now, i), Err(Error::InvalidAddress));
    assert_eq!(r.execute_secure_intent(user, now, intent(user, 0, START, 0)), Err(Error::ZeroAmount));
    assert_eq!(r.execute_secure_intent(user, now, intent(user, 999, START, 0)), Err(Error::AmountBelowMinimum));
    assert_eq!(
        r.execute_secure_intent(user, now, intent(user, 100_000 * ONE + 1, START, 0)),
        Err(Error::AmountExceedsMaximum)
    );
    i = intent(user, ONE, START, 0);
    i.max_slippage_bps = w(1001);
    assert_eq!(r.execute_secure_intent(user, now, i), Err(Error::SlippageTooHigh));
    assert_eq!(r.execute_secure_intent(user, now, intent(user, ONE, START, 1)), Err(Error::InvalidNonce));
    i = intent(user, ONE, START, 0);
    i.min_amount_out = w(ONE);
    assert_eq!(r.execute_secure_intent(user, now, i), Err(Error::InsufficientOutput));
    assert_eq!(r.nonce_of(user), U256::zero());
    assert_eq!(r.daily_volume_of(user), U256::zero());
    assert_eq!(r.total_volume_24h(), U256::zero());
}

#[test]
fn daily_volume_resets_once_per_window() {
    let (mut r, _) = router_with_pools(12);
    let user = addr(4);
    let big = 100_000 * ONE;
    let mut nonce = 0u64;
    let t1 = START + 100;
    for _ in 0..10 {
        assert!(r.execute_secure_intent(user, w(t1 as u128), intent(user, big, t1, nonce)).is_ok());
        nonce += 1;
    }
    assert_eq!(r.daily_volume_of(user), w(10 * big));
    assert_eq!(
        r.execute_secure_intent(user, w(t1 as u128), intent(user, 1000, t1, nonce)),
        Err(Error::DailyVolumeExceeded)
    );
    // Exactly at the window's end nothing resets yet.
    let edge = START + 86_400;
    assert_eq!(
        r.execute_secure_intent(user, w(edge as u128), intent(user, 1000, edge, nonce)),
        Err(Error::DailyVolumeExceeded)
    );
    // One second later the window resets, once.
    let t2 = START + 86_401;
    assert!(r.execute_secure_intent(user, w(t2 as u128), intent(user, ONE, t2, nonce)).is_ok());
    nonce += 1;
    assert_eq!(r.daily_volume_of(user), w(ONE));
    let t3 = t2 + 86_400;
    assert!(r.execute_secure_intent(user, w(t3 as u128), intent(user, ONE, t3, nonce)).is_ok());
    assert_eq!(r.daily_volume_of(user), w(2 * ONE));
}

#[test]
fn circuit_breaker_halts_the_router() {
    let (mut r, _) = router_with_pools(101);
    let big = 100_000 * ONE;
    let now = START + 100;
    for u in 0..10u8 {
        let user = addr(100 + u);
        for n in 0..10u64 {
            assert!(r.execute_secure_intent(user, w(now as u128), intent(user, big, now, n)).is_ok());
        }
    }
    assert_eq!(r.total_volume_24h(), w(100 * big));
    assert!(!r.is_paused());
    let user = addr(200);
    assert_eq!(
        r.execute_secure_intent(user, w(now as u128), intent(user, 1000, now, 0)),
        Err(Error::CircuitBreakerTriggered)
    );
    assert!(r.is_paused());
    let other = addr(201);
    assert_eq!(
        r.execute_secure_intent(other, w(now as u128), intent(other, 1000, now, 0)),
        Err(Error::Paused)
    );
}

#[test]
fn emergency_pause_is_gated() {
    let (mut r, _) = router_with_pool();
    assert_eq!(r.emergency_pause(addr(9)), Err(Error::Unauthorized));
    assert!(!r.is_paused());
    assert_eq!(r.emergency_pause(addr(2)), Ok(()));
    assert!(r.is_paused());
    let user = addr(4);
    assert_eq!(
        r.execute_secure_intent(user, w(START as u128), intent(user, ONE, START, 0)),
        Err(Error::Paused)
    );
}

#[test]
fn total_price_impact_is_a_plain_sum() {
    let step = |bps: u64| SecureRouteStep {
        pool_id: U256::zero(),
        token_in: addr(10),
        token_out: addr(11),
        amount_in: w(1),
        amount_out: w(1),
        price_impact_bps: U256::from_u64(bps),
        verified: true,
    };
    assert_eq!(calculate_total_price_impact(&vec![step(10), step(25), step(7)]), Ok(U256::from_u64(42)));
    assert_eq!(calculate_total_price_impact(&vec![]), Ok(U256::zero()));
}
