use aquaflow::registry::{simulated_reserves, PoolRegistry};
use aquaflow::{Address, Error, U256};

fn addr(b: u8) -> Address {
    Address::new([b; 20])
}

fn w(x: u128) -> U256 {
    U256::from_u128(x)
}

#[test]
fn registry_indexes_by_pair_and_chain() {
    let owner = addr(1);
    let mut reg = PoolRegistry::initialize(owner, U256::zero(), w(500));
    let a = reg.add_pool(owner, 12345, addr(20), addr(11), addr(10), w(30), 0, w(42161)).unwrap();
    let b = reg.add_pool(owner, 12345, addr(21), addr(10), addr(11), w(5), 1, w(42170)).unwrap();
    let c = reg.add_pool(owner, 12345, addr(22), addr(10), addr(12), w(5), 1, w(42161)).unwrap();
    assert_eq!((a, b, c), (w(0), w(1), w(2)));
    assert_eq!(reg.get_pools_for_pair(addr(10), addr(11)), vec![a, b]);
    assert_eq!(reg.get_pools_for_pair(addr(11), addr(10)), vec![a, b]);
    assert_eq!(reg.get_pools_by_chain(w(42161)), vec![a, c]);
    assert_eq!(reg.get_pools_by_chain(w(1)), Vec::<U256>::new());
    assert_eq!(reg.get_active_pool_count(), w(3));
    let info = reg.get_pool_info(a).unwrap();
    assert_eq!(info.reserve_a, w(1_000_012_345_000_000_000_000_000));
    assert_eq!(info.reserve_b, w(1_000_086_415_000_000_000_000_000));
    assert_eq!(info.last_updated, w(12345));
    assert!(info.is_active);
    let stats = reg.get_pool_stats(a).unwrap();
    assert_eq!(stats.tvl_usd, w(2_000_098));
    assert_eq!(stats.volume_24h_usd, w(700_034));
    assert_eq!(stats.fees_24h_usd, w(2100));
    assert_eq!(stats.price_impact_1k, w(9));
    assert_eq!(stats.utilization_rate, w(65));
    assert!(reg.get_pool_info(w(3)).is_none());
}

#[test]
fn registry_refuses_bad_pools() {
    let owner = addr(1);
    let mut reg = PoolRegistry::initialize(owner, U256::zero(), w(500));
    assert!(reg.add_pool(owner, 1, addr(20), addr(10), addr(11), w(30), 0, w(1)).is_ok());
    assert_eq!(reg.add_pool(owner, 1, addr(20), addr(12), addr(13), w(30), 0, w(1)), Err(Error::PoolAlreadyExists));
    assert_eq!(reg.add_pool(addr(9), 1, addr(21), addr(12), addr(13), w(30), 0, w(1)), Err(Error::Unauthorized));
    assert_eq!(reg.add_pool(owner, 1, addr(21), addr(12), addr(12), w(30), 0, w(1)), Err(Error::IdenticalTokens));
    assert_eq!(reg.add_pool(owner, 1, Address::zero(), addr(12), addr(13), w(30), 0, w(1)), Err(Error::InvalidAddress));
    assert_eq!(reg.add_pool(owner, 1, addr(21), addr(12), addr(13), w(1001), 0, w(1)), Err(Error::FeeTooHigh));
    assert_eq!(reg.add_updater(addr(9), addr(9)), Err(Error::Unauthorized));
    assert_eq!(reg.add_updater(owner, addr(9)), Ok(()));
    assert!(reg.add_pool(addr(9), 1, addr(21), addr(12), addr(13), w(30), 0, w(1)).is_ok());
    assert_eq!(reg.pause(addr(9)), Err(Error::Unauthorized));
    assert_eq!(reg.pause(owner), Ok(()));
    assert_eq!(reg.add_pool(owner, 1, addr(22), addr(12), addr(14), w(30), 0, w(1)), Err(Error::Paused));
}

#[test]
fn registry_refresh_is_rate_limited() {
    let owner = addr(1);
    let mut reg = PoolRegistry::initialize(owner, U256::zero(), w(500));
    let id = reg.add_pool(owner, 1000, addr(20), addr(10), addr(11), w(30), 0, w(1)).unwrap();
    assert_eq!(reg.update_pool(owner, 1099, id), Err(Error::UpdateTooFrequent));
    assert_eq!(reg.update_pool(owner, 1100, id), Ok(()));
    let (ra, rb) = simulated_reserves(1100);
    let info = reg.get_pool_info(id).unwrap();
    assert_eq!((info.reserve_a, info.reserve_b), (ra, rb));
    assert_eq!(info.last_updated, w(1100));
    assert_eq!(reg.update_pool(owner, 1150, id), Err(Error::UpdateTooFrequent));
    assert_eq!(reg.update_pool(owner, 5000, w(7)), Err(Error::PoolNotFound));
    assert_eq!(reg.update_pool(addr(9), 5000, id), Err(Error::Unauthorized));
    assert_eq!(reg.update_config(owner, U256::zero(), w(500), w(10)), Ok(()));
    assert_eq!(reg.update_pool(owner, 1110, id), Ok(()));
}

#[test]
fn failed_registry_calls_change_nothing() {
    let owner = addr(1);
    let mut reg = PoolRegistry::initialize(owner, U256::zero(), w(500));
    let a = reg.add_pool(owner, 7, addr(20), addr(10), addr(11), w(30), 0, w(5)).unwrap();
    let stats = reg.get_pool_stats(a).unwrap().tvl_usd;
    assert_eq!(reg.add_pool(owner, 9, addr(20), addr(10), addr(11), w(30), 0, w(5)), Err(Error::PoolAlreadyExists));
    assert_eq!(reg.get_pools_for_pair(addr(10), addr(11)), vec![a]);
    assert_eq!(reg.get_pools_by_chain(w(5)), vec![a]);
    assert_eq!(reg.get_pool_stats(a).unwrap().tvl_usd, stats);
    assert_eq!(reg.get_active_pool_count(), w(1));
}
