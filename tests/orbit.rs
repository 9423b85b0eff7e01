use aquaflow::orbit::{compute_state_root, CrossChainIntent, OrbitAwareRouter, SettlementMode};
use aquaflow::{Address, Error, U256};

fn addr(b: u8) -> Address {
    Address::new([b; 20])
}

fn w(x: u128) -> U256 {
    U256::from_u128(x)
}

fn cross(chain: u64, amount: u128, deadline: u128) -> CrossChainIntent {
    CrossChainIntent {
        user: addr(1),
        source_chain: U256::from_u64(chain),
        target_chain: U256::from_u64(1),
        token_in: addr(10),
        token_out: addr(11),
        amount_in: w(amount),
        min_amount_out: U256::zero(),
        deadline: w(deadline),
        settlement_mode: 0,
    }
}

#[test]
fn mode_follows_chain_id() {
    let one = OrbitAwareRouter::initialize_orbit_aware(w(42161), addr(2), true, addr(3), w(10));
    let nova = OrbitAwareRouter::initialize_orbit_aware(w(42170), addr(2), false, addr(3), w(10));
    let l3 = OrbitAwareRouter::initialize_orbit_aware(w(99), addr(2), false, addr(3), w(10));
    assert_eq!(one.settlement_mode(), SettlementMode::MainnetSettlement);
    assert_eq!(nova.settlement_mode(), SettlementMode::AnyTrustSettlement);
    assert_eq!(l3.settlement_mode(), SettlementMode::OrbitSettlement);
    assert_eq!(SettlementMode::from_u8(0), SettlementMode::MainnetSettlement);
    assert_eq!(SettlementMode::from_u8(1), SettlementMode::AnyTrustSettlement);
    assert_eq!(SettlementMode::from_u8(2), SettlementMode::OrbitSettlement);
    assert_eq!(SettlementMode::from_u8(200), SettlementMode::OrbitSettlement);
    assert!(one.is_bold_enabled());
    assert!(!nova.is_bold_enabled());
    assert_eq!(one.get_chain_config().chain_id, w(42161));
}

#[test]
fn settlement_fee_depends_on_mode() {
    for (chain, expected) in [(42161u64, 997u128), (42170, 998), (7, 999)] {
        let mut r = OrbitAwareRouter::initialize_orbit_aware(U256::from_u64(chain), addr(2), true, addr(3), w(10));
        assert_eq!(r.execute_cross_chain_intent(w(100), cross(chain, 1000, 110)), Ok(w(expected)));
        assert_eq!(r.settlement_nonce(), w(1));
        assert_eq!(r.get_pending_settlement(U256::zero()).unwrap().intent.amount_in, w(1000));
    }
}

#[test]
fn cross_chain_checks() {
    let mut r = OrbitAwareRouter::initialize_orbit_aware(w(42161), addr(2), true, addr(3), w(10));
    assert_eq!(r.execute_cross_chain_intent(w(100), cross(42170, 1000, 200)), Err(Error::InvalidSourceChain));
    assert_eq!(r.execute_cross_chain_intent(w(100), cross(42161, 1000, 109)), Err(Error::DeadlineTooShortForFinality));
    assert_eq!(r.settlement_nonce(), U256::zero());
    assert!(r.get_pending_settlement(U256::zero()).is_none());
}

#[test]
fn state_root_is_keccak_of_user_amount_deadline() {
    let intent = cross(42161, 1000, 5000);
    let expected: [u8; 32] = [
        48, 178, 170, 56, 246, 197, 229, 138, 19, 66, 207, 249, 233, 6, 249, 10, 195, 26, 183, 95, 24,
        248, 106, 6, 80, 247, 244, 139, 147, 202, 100, 189,
    ];
    assert_eq!(compute_state_root(&intent), expected);
    let mut r = OrbitAwareRouter::initialize_orbit_aware(w(42161), addr(2), true, addr(3), w(10));
    r.execute_cross_chain_intent(w(100), intent).unwrap();
    assert_eq!(r.get_pending_settlement(U256::zero()).unwrap().state_root, expected);
}

#[test]
fn settle_with_root_records_the_given_root() {
    let mut r = OrbitAwareRouter::initialize_orbit_aware(w(5), addr(2), false, addr(3), w(0));
    assert_eq!(r.settle_with_root(w(100), cross(5, 2000, 100), [7u8; 32]), Ok(w(1998)));
    assert_eq!(r.get_pending_settlement(U256::zero()).unwrap().state_root, [7u8; 32]);
}

#[test]
fn disputes_need_bold() {
    let mut off = OrbitAwareRouter::initialize_orbit_aware(w(42170), addr(2), false, addr(3), w(10));
    assert_eq!(off.challenge_settlement(addr(4), w(100), U256::zero(), [1u8; 32]), Err(Error::DisputesDisabled));
    let mut on = OrbitAwareRouter::initialize_orbit_aware(w(42161), addr(2), true, addr(3), w(10));
    assert_eq!(on.challenge_settlement(addr(4), w(100), U256::zero(), [1u8; 32]), Ok(()));
}

#[test]
fn sequencer_timeout_enters_fallback() {
    let mut r = OrbitAwareRouter::initialize_orbit_aware(w(42161), addr(2), true, addr(3), w(10));
    assert_eq!(r.handle_sequencer_offline(w(1300), w(1000)), Ok(()));
    assert!(!r.is_fallback_mode());
    assert_eq!(r.handle_sequencer_offline(w(1301), w(1000)), Ok(()));
    assert!(r.is_fallback_mode());
}
