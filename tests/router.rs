use aquaflow::router::{calculate_route_output, AquaFlowRouter, Intent, RouteStep};
use aquaflow::{Address, Error, U256};

fn addr(b: u8) -> Address {
    Address::new([b; 20])
}

fn w(x: u128) -> U256 {
    U256::from_u128(x)
}

#[test]
fn quote_through_router_matches_worked_example() {
    let owner = addr(1);
    let mut r = AquaFlowRouter::initialize(owner, addr(2));
    assert_eq!(r.add_pool(owner, addr(10), addr(11), addr(20), w(30)), Ok(U256::zero()));
    assert_eq!(r.get_quote(addr(10), addr(11), w(1000)), Ok(w(996)));
    assert_eq!(r.get_quote(addr(11), addr(10), w(1000)), Ok(w(996)));
    assert_eq!(r.get_quote(addr(10), addr(12), w(1000)), Err(Error::NoPoolForPair));
}

#[test]
fn basic_add_pool_checks() {
    let owner = addr(1);
    let mut r = AquaFlowRouter::initialize(owner, addr(2));
    assert_eq!(r.add_pool(addr(9), addr(10), addr(11), addr(20), w(30)), Err(Error::Unauthorized));
    assert!(r.add_pool(owner, addr(10), addr(11), addr(20), w(30)).is_ok());
    assert_eq!(r.add_pool(owner, addr(10), addr(11), addr(20), w(30)), Err(Error::PoolAlreadyExists));
    assert_eq!(r.add_pool(owner, addr(10), addr(11), addr(21), w(1001)), Err(Error::FeeTooHigh));
}

#[test]
fn basic_execute_intent() {
    let owner = addr(1);
    let mut r = AquaFlowRouter::initialize(owner, addr(2));
    r.add_pool(owner, addr(10), addr(11), addr(20), w(30)).unwrap();
    let intent = Intent {
        user: addr(4),
        token_in: addr(10),
        token_out: addr(11),
        amount_in: w(1000),
        min_amount_out: w(996),
        deadline: w(101),
    };
    assert_eq!(r.execute_intent(w(100), intent), Ok(w(996)));
    // The pool moved: the same trade now yields less.
    assert_eq!(r.get_quote(addr(10), addr(11), w(1000)), Ok(w(994)));
    assert_eq!(r.execute_intent(w(100), intent), Err(Error::InsufficientOutput));
    assert_eq!(r.execute_intent(w(101), intent), Err(Error::TransactionExpired));
    assert_eq!(r.execute_intent(w(102), intent), Err(Error::TransactionExpired));
    let zero = Intent { amount_in: U256::zero(), ..intent };
    assert_eq!(r.execute_intent(w(100), zero), Err(Error::ZeroAmount));
}

#[test]
fn route_output_is_last_step() {
    assert_eq!(calculate_route_output(&vec![]), Err(Error::EmptyRoute));
    let step = RouteStep {
        pool_id: U256::zero(),
        token_in: addr(10),
        token_out: addr(11),
        amount_in: w(5),
        amount_out: w(4),
    };
    assert_eq!(calculate_route_output(&vec![step]), Ok(w(4)));
}

#[test]
fn basic_deadline_at_now_is_expired_before_routing() {
    let mut r = AquaFlowRouter::initialize(addr(1), addr(2));
    let intent = Intent {
        user: addr(4),
        token_in: addr(10),
        token_out: addr(11),
        amount_in: w(1000),
        min_amount_out: U256::zero(),
        deadline: w(100),
    };
    // No pool exists, so routing would fail with NoPoolForPair.
    assert_eq!(r.execute_intent(w(100), intent), Err(Error::TransactionExpired));
    assert_eq!(r.execute_intent(w(99), intent), Err(Error::NoPoolForPair));
}
