//! Chain-aware settlement: a mode chosen once from the chain id decides the
//! settlement fee, and disputes are accepted only where they are enabled.
use crate::address::Address;
use crate::error::Error;
use crate::uint::{be_bytes, U256};
use vstd::prelude::*;

verus! {

/// The chain id of the mainnet-settled rollup.
pub const MAINNET_CHAIN_ID: u64 = 42161;

/// The chain id of the data-availability-committee chain.
pub const ANYTRUST_CHAIN_ID: u64 = 42170;

/// The length of a dispute window, in blocks (seven days of 12-second blocks).
pub const DISPUTE_WINDOW_BLOCKS: u64 = 50400;

/// The time after which a silent sequencer is taken to be offline, in seconds.
pub const SEQUENCER_TIMEOUT: u64 = 300;

/// The configuration of the chain the router is deployed on.
#[derive(Clone, Copy, Debug)]
pub struct ChainConfig {
    pub chain_id: U256,
    /// The parent chain contract settlement goes to.
    pub settlement_layer: Address,
    /// Whether disputes can be raised on this chain.
    pub bold_enabled: bool,
    pub sequencer_address: Address,
    /// The finality buffer a deadline must cover.
    pub min_confirmation_blocks: U256,
}

/// How trades settle, by kind of chain.
#[derive(Clone, Copy, Debug, PartialEq, Eq, Structural)]
pub enum SettlementMode {
    /// Settles to the base layer; 0.3% settlement fee.
    MainnetSettlement,
    /// Settles through a data-availability committee; 0.2% settlement fee.
    AnyTrustSettlement,
    /// Settles to a parent rollup; 0.1% settlement fee.
    OrbitSettlement,
}

/// A swap to be settled across chains.
#[derive(Clone, Copy, Debug)]
pub struct CrossChainIntent {
    pub user: Address,
    pub source_chain: U256,
    pub target_chain: U256,
    pub token_in: Address,
    pub token_out: Address,
    pub amount_in: U256,
    pub min_amount_out: U256,
    pub deadline: U256,
    /// A mode tag as `SettlementMode::from_u8` reads it.
    pub settlement_mode: u8,
}

/// A settlement awaiting finality, under its nonce.
#[derive(Clone, Copy, Debug)]
pub struct PendingSettlement {
    pub intent: CrossChainIntent,
    /// The Keccak-256 digest binding the user, amount and deadline.
    pub state_root: [u8; 32],
}

/// An open dispute of a settlement.
#[derive(Clone, Copy, Debug)]
pub struct Dispute {
    pub nonce: U256,
    pub challenger: Address,
    pub disputed_state: [u8; 32],
    /// The last block of the challenge window.
    pub deadline_block: U256,
}

/// The mode of a chain id: the two known chains have their own, every other
/// chain settles as an Orbit chain.
pub open spec fn mode_for_chain_spec(chain_id: nat) -> SettlementMode {
    if chain_id == MAINNET_CHAIN_ID {
        SettlementMode::MainnetSettlement
    } else if chain_id == ANYTRUST_CHAIN_ID {
        SettlementMode::AnyTrustSettlement
    } else {
        SettlementMode::OrbitSettlement
    }
}

/// The share of the input a mode pays out, in thousandths.
pub open spec fn payout_per_mille(mode: SettlementMode) -> nat {
    match mode {
        SettlementMode::MainnetSettlement => 997,
        SettlementMode::AnyTrustSettlement => 998,
        SettlementMode::OrbitSettlement => 999,
    }
}

/// The bytes a state root is the digest of: the user's 20 address bytes, then
/// the amount and the deadline as 32 big-endian bytes each.
pub open spec fn state_root_preimage_spec(intent: CrossChainIntent) -> Seq<u8> {
    be_bytes(intent.user@, 32).subrange(12, 32) + be_bytes(intent.amount_in@, 32) + be_bytes(
        intent.deadline@,
        32,
    )
}

/// The Keccak-256 digest of a byte string.
pub uninterp spec fn keccak256_of(data: Seq<u8>) -> Seq<u8>;

/// Relies on `stylus_sdk::crypto::keccak` (alloy's `keccak256`): the 32-byte
/// Keccak-256 digest, which depends on the bytes alone.
#[verifier::external_body]
fn keccak(data: &[u8]) -> (r: [u8; 32])
    ensures
        r@ == keccak256_of(data@),
{
    stylus_sdk::crypto::keccak(data).0
}

impl SettlementMode {
    /// The mode of a stored tag: 0, 1 and 2 name the three modes, and every
    /// other tag falls back to `OrbitSettlement`.
    pub fn from_u8(value: u8) -> (r: SettlementMode)
        ensures
            r == (if value == 0 {
                SettlementMode::MainnetSettlement
            } else if value == 1 {
                SettlementMode::AnyTrustSettlement
            } else {
                SettlementMode::OrbitSettlement
            }),
    {
        match value {
            0 => SettlementMode::MainnetSettlement,
            1 => SettlementMode::AnyTrustSettlement,
            _ => SettlementMode::OrbitSettlement,
        }
    }

    /// The mode of a chain id.
    pub fn for_chain(chain_id: &U256) -> (r: SettlementMode)
        ensures
            r == mode_for_chain_spec(chain_id@),
    {
        let mainnet = U256::from_u64(MAINNET_CHAIN_ID);
        let anytrust = U256::from_u64(ANYTRUST_CHAIN_ID);
        proof {
            if chain_id@ == MAINNET_CHAIN_ID {
                crate::uint::lemma_view_injective(*chain_id, mainnet);
            }
            if chain_id@ == ANYTRUST_CHAIN_ID {
                crate::uint::lemma_view_injective(*chain_id, anytrust);
            }
        }
        if *chain_id == mainnet {
            SettlementMode::MainnetSettlement
        } else if *chain_id == anytrust {
            SettlementMode::AnyTrustSettlement
        } else {
            SettlementMode::OrbitSettlement
        }
    }
}

/// The bytes a settlement's state root is the digest of.
pub fn state_root_preimage(intent: &CrossChainIntent) -> (r: Vec<u8>)
    ensures
        r@ == state_root_preimage_spec(*intent),
{
    let mut out = intent.user.to_bytes();
    let amount = intent.amount_in.to_be_bytes();
    let deadline = intent.deadline.to_be_bytes();
    let ghost head = out@;
    let mut i: usize = 0;
    while i < 32
        invariant
            i <= 32,
            out@ == head + amount@.subrange(0, i as int),
        decreases 32 - i,
    {
        out.push(amount[i]);
        i = i + 1;
        assert(out@ =~= head + amount@.subrange(0, i as int));
    }
    assert(amount@.subrange(0, 32) =~= amount@);
    let ghost middle = out@;
    let mut j: usize = 0;
    while j < 32
        invariant
            j <= 32,
            out@ == middle + deadline@.subrange(0, j as int),
        decreases 32 - j,
    {
        out.push(deadline[j]);
        j = j + 1;
        assert(out@ =~= middle + deadline@.subrange(0, j as int));
    }
    assert(deadline@.subrange(0, 32) =~= deadline@);
    out
}

/// The state root of a settlement: the Keccak-256 digest of its preimage.
pub fn compute_state_root(intent: &CrossChainIntent) -> (r: [u8; 32])
    ensures
        r@ == keccak256_of(state_root_preimage_spec(*intent)),
{
    let preimage = state_root_preimage(intent);
    keccak(preimage.as_slice())
}

/// Why a cross-chain intent is refused at `now`, if it is.
pub open spec fn cross_chain_error(config: ChainConfig, now: nat, intent: CrossChainIntent) -> Option<Error> {
    if intent.source_chain != config.chain_id {
        Some(Error::InvalidSourceChain)
    } else if intent.deadline@ < now + config.min_confirmation_blocks@ {
        Some(Error::DeadlineTooShortForFinality)
    } else {
        None
    }
}

/// What settling `intent` in `mode` at `now` returns: the estimated output
/// after the mode's settlement fee, or why it is refused.
pub open spec fn settlement_spec(
    config: ChainConfig,
    mode: SettlementMode,
    now: nat,
    intent: CrossChainIntent,
) -> Result<nat, Error> {
    match cross_chain_error(config, now, intent) {
        Some(e) => Err(e),
        None => if intent.amount_in@ * payout_per_mille(mode) >= crate::uint::word_modulus() {
            Err(Error::ArithmeticOverflow)
        } else {
            Ok(intent.amount_in@ * payout_per_mille(mode) / 1000)
        },
    }
}

/// The router's settlement state on one chain.
pub struct OrbitAwareRouter {
    chain_config: ChainConfig,
    settlement_mode: SettlementMode,
    bold_challenger: Address,
    dispute_window: U256,
    pending_settlements: Vec<PendingSettlement>,
    disputes: Vec<Dispute>,
    sequencer_offline: bool,
    fallback_mode: bool,
    parent_router: Address,
    bridge_contract: Address,
}

impl OrbitAwareRouter {
    /// The chain configuration.
    pub closed spec fn config(&self) -> ChainConfig {
        self.chain_config
    }

    /// The settlement mode, fixed at initialization.
    pub closed spec fn mode(&self) -> SettlementMode {
        self.settlement_mode
    }

    /// The settlements recorded so far; a settlement's nonce is its index.
    pub closed spec fn pending(&self) -> Seq<PendingSettlement> {
        self.pending_settlements@
    }

    /// The disputes raised so far, in order.
    pub closed spec fn disputes(&self) -> Seq<Dispute> {
        self.disputes@
    }

    /// The length of a dispute window, in blocks.
    pub closed spec fn dispute_window_spec(&self) -> nat {
        self.dispute_window@
    }

    /// Whether the router has fallen back for an offline sequencer.
    pub closed spec fn fallback_spec(&self) -> bool {
        self.fallback_mode
    }

    /// A router for the chain `chain_id`, its mode derived from the id.
    pub fn initialize_orbit_aware(
        chain_id: U256,
        settlement_layer: Address,
        bold_enabled: bool,
        sequencer: Address,
        min_confirmations: U256,
    ) -> (r: OrbitAwareRouter)
        ensures
            r.config() == (ChainConfig {
                chain_id,
                settlement_layer,
                bold_enabled,
                sequencer_address: sequencer,
                min_confirmation_blocks: min_confirmations,
            }),
            r.mode() == mode_for_chain_spec(chain_id@),
            r.pending().len() == 0,
            r.disputes().len() == 0,
            !r.fallback_spec(),
            r.dispute_window_spec() == (if bold_enabled {
                DISPUTE_WINDOW_BLOCKS as nat
            } else {
                0
            }),
    {
        let config = ChainConfig {
            chain_id,
            settlement_layer,
            bold_enabled,
            sequencer_address: sequencer,
            min_confirmation_blocks: min_confirmations,
        };
        let window = if bold_enabled {
            U256::from_u64(DISPUTE_WINDOW_BLOCKS)
        } else {
            U256::zero()
        };
        OrbitAwareRouter {
            chain_config: config,
            settlement_mode: SettlementMode::for_chain(&chain_id),
            bold_challenger: Address::zero(),
            dispute_window: window,
            pending_settlements: Vec::new(),
            disputes: Vec::new(),
            sequencer_offline: false,
            fallback_mode: false,
            parent_router: Address::zero(),
            bridge_contract: Address::zero(),
        }
    }

    /// Checks the intent's source chain and that its deadline covers the
    /// chain's finality buffer.
    fn validate_cross_chain_intent(&self, now: &U256, intent: &CrossChainIntent) -> (r: Result<(), Error>)
        ensures
            match cross_chain_error(self.config(), now@, *intent) {
                Some(e) => r == Err::<(), Error>(e),
                None => r is Ok,
            },
    {
        if intent.source_chain != self.chain_config.chain_id {
            return Err(Error::InvalidSourceChain);
        }
        match now.checked_add(self.chain_config.min_confirmation_blocks) {
            Some(earliest) => {
                if intent.deadline.lt(&earliest) {
                    return Err(Error::DeadlineTooShortForFinality);
                }
            },
            None => {
                proof {
                    crate::uint::lemma_view_bound(intent.deadline);
                }
                return Err(Error::DeadlineTooShortForFinality);
            },
        }
        Ok(())
    }

    /// The estimated output of settling `amount_in` in this router's mode.
    fn settlement_output(&self, amount_in: U256) -> (r: Result<U256, Error>)
        ensures
            amount_in@ * payout_per_mille(self.mode()) >= crate::uint::word_modulus() ==> r
                == Err::<U256, Error>(Error::ArithmeticOverflow),
            amount_in@ * payout_per_mille(self.mode()) < crate::uint::word_modulus() ==> (r matches Ok(
                v,
            ) && v@ == amount_in@ * payout_per_mille(self.mode()) / 1000),
    {
        let per_mille: u64 = match self.settlement_mode {
            SettlementMode::MainnetSettlement => 997,
            SettlementMode::AnyTrustSettlement => 998,
            SettlementMode::OrbitSettlement => 999,
        };
        let scaled = match amount_in.checked_mul(U256::from_u64(per_mille)) {
            Some(x) => x,
            None => return Err(Error::ArithmeticOverflow),
        };
        match scaled.checked_div(U256::from_u64(1000)) {
            Some(x) => Ok(x),
            None => Err(Error::DivisionByZero),
        }
    }

    /// Settles `intent` at `now` under a state root computed for it: checks
    /// it, records it under the next nonce, and returns the estimated output
    /// after the mode's settlement fee. A refused intent records nothing.
    pub fn settle_with_root(&mut self, now: U256, intent: CrossChainIntent, state_root: [u8; 32]) -> (r:
        Result<U256, Error>)
        ensures
            final(self).config() == old(self).config(),
            final(self).mode() == old(self).mode(),
            final(self).dispute_window_spec() == old(self).dispute_window_spec(),
            final(self).fallback_spec() == old(self).fallback_spec(),
            final(self).disputes() == old(self).disputes(),
            match settlement_spec(old(self).config(), old(self).mode(), now@, intent) {
                Err(e) => r == Err::<U256, Error>(e) && final(self).pending() == old(self).pending(),
                Ok(out) => (r matches Ok(v) && v@ == out && final(self).pending() == old(self).pending().push(
                    PendingSettlement { intent, state_root },
                )),
            },
    {
        match self.validate_cross_chain_intent(&now, &intent) {
            Ok(()) => {},
            Err(e) => return Err(e),
        }
        let out = match self.settlement_output(intent.amount_in) {
            Ok(v) => v,
            Err(e) => return Err(e),
        };
        self.pending_settlements.push(PendingSettlement { intent, state_root });
        Ok(out)
    }

    /// Executes a cross-chain intent at `now`: `settle_with_root` under the
    /// Keccak-256 digest of the intent's user, amount and deadline.
    pub fn execute_cross_chain_intent(&mut self, now: U256, intent: CrossChainIntent) -> (r: Result<
        U256,
        Error,
    >)
        ensures
            final(self).config() == old(self).config(),
            final(self).mode() == old(self).mode(),
            final(self).dispute_window_spec() == old(self).dispute_window_spec(),
            final(self).fallback_spec() == old(self).fallback_spec(),
            final(self).disputes() == old(self).disputes(),
            match settlement_spec(old(self).config(), old(self).mode(), now@, intent) {
                Err(e) => r == Err::<U256, Error>(e) && final(self).pending() == old(self).pending(),
                Ok(out) => (r matches Ok(v) && v@ == out && final(self).pending().len() == old(self).pending().len() + 1 && final(self).pending().drop_last() == old(self).pending()
                    && final(self).pending().last().intent == intent && final(self).pending().last().state_root@
                    == keccak256_of(state_root_preimage_spec(intent))),
            },
    {
        let root = compute_state_root(&intent);
        let r = self.settle_with_root(now, intent, root);
        proof {
            if r is Ok {
                assert(final(self).pending().drop_last() =~= old(self).pending());
            }
        }
        r
    }

    /// Opens a dispute of settlement `nonce` by `caller` at block `block`,
    /// with a window of `dispute_window` blocks; refused where disputes are
    /// not enabled.
    pub fn challenge_settlement(
        &mut self,
        caller: Address,
        block: U256,
        nonce: U256,
        disputed_state: [u8; 32],
    ) -> (r: Result<(), Error>)
        ensures
            final(self).config() == old(self).config(),
            final(self).mode() == old(self).mode(),
            final(self).dispute_window_spec() == old(self).dispute_window_spec(),
            final(self).fallback_spec() == old(self).fallback_spec(),
            final(self).pending() == old(self).pending(),
            !old(self).config().bold_enabled ==> r == Err::<(), Error>(Error::DisputesDisabled)
                && final(self).disputes() == old(self).disputes(),
            old(self).config().bold_enabled && block@ + old(self).dispute_window_spec()
                >= crate::uint::word_modulus() ==> r == Err::<(), Error>(Error::ArithmeticOverflow)
                && final(self).disputes() == old(self).disputes(),
            old(self).config().bold_enabled && block@ + old(self).dispute_window_spec()
                < crate::uint::word_modulus() ==> (r is Ok && final(self).disputes().len() == old(self).disputes().len() + 1 && final(self).disputes().drop_last() == old(self).disputes()
                && final(self).disputes().last().nonce == nonce && final(self).disputes().last().challenger == caller && final(self).disputes().last().disputed_state
                == disputed_state && final(self).disputes().last().deadline_block@ == block@ + old(self).dispute_window_spec()),
    {
        if !self.chain_config.bold_enabled {
            return Err(Error::DisputesDisabled);
        }
        let deadline_block = match block.checked_add(self.dispute_window) {
            Some(d) => d,
            None => return Err(Error::ArithmeticOverflow),
        };
        self.bold_challenger = caller;
        let ghost before = self.disputes@;
        self.disputes.push(Dispute { nonce, challenger: caller, disputed_state, deadline_block });
        assert(self.disputes@.drop_last() =~= before);
        Ok(())
    }

    /// Enters fallback mode when the last block is more than
    /// `SEQUENCER_TIMEOUT` seconds older than `now`; a timeout check, not a
    /// liveness guarantee.
    pub fn handle_sequencer_offline(&mut self, now: U256, last_block_time: U256) -> (r: Result<(), Error>)
        ensures
            r is Ok,
            final(self).config() == old(self).config(),
            final(self).mode() == old(self).mode(),
            final(self).dispute_window_spec() == old(self).dispute_window_spec(),
            final(self).pending() == old(self).pending(),
            final(self).disputes() == old(self).disputes(),
            final(self).fallback_spec() == (old(self).fallback_spec() || now@ > last_block_time@
                + SEQUENCER_TIMEOUT),
    {
        if last_block_time.lt(&now) {
            let elapsed = match now.checked_sub(last_block_time) {
                Some(e) => e,
                None => return Ok(()),
            };
            if U256::from_u64(SEQUENCER_TIMEOUT).lt(&elapsed) {
                self.sequencer_offline = true;
                self.fallback_mode = true;
            }
        }
        Ok(())
    }

    /// The chain configuration.
    pub fn get_chain_config(&self) -> (r: ChainConfig)
        ensures
            r == self.config(),
    {
        self.chain_config
    }

    /// Whether disputes can be raised on this chain.
    pub fn is_bold_enabled(&self) -> (r: bool)
        ensures
            r == self.config().bold_enabled,
    {
        self.chain_config.bold_enabled
    }

    /// The settlement mode.
    pub fn settlement_mode(&self) -> (r: SettlementMode)
        ensures
            r == self.mode(),
    {
        self.settlement_mode
    }

    /// The settlement recorded under `nonce`, if any.
    pub fn get_pending_settlement(&self, nonce: U256) -> (r: Option<PendingSettlement>)
        ensures
            nonce@ < self.pending().len() ==> r == Some(self.pending()[nonce@ as int]),
            nonce@ >= self.pending().len() ==> r is None,
    {
        if !nonce.lt(&U256::from_u64(self.pending_settlements.len() as u64)) {
            return None;
        }
        Some(self.pending_settlements[nonce.low_u64() as usize])
    }

    /// The next settlement nonce: the number of settlements recorded.
    pub fn settlement_nonce(&self) -> (r: U256)
        ensures
            r@ == self.pending().len(),
    {
        U256::from_u64(self.pending_settlements.len() as u64)
    }

    /// Whether the router has fallen back for an offline sequencer.
    pub fn is_fallback_mode(&self) -> (r: bool)
        ensures
            r == self.fallback_spec(),
    {
        self.fallback_mode
    }
}

} // verus!
