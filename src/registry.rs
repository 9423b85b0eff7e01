//! The pool registry: pools by dense id, with per-pair and per-chain indices,
//! rate-limited refreshes and per-pool statistics.
use crate::address::Address;
use crate::amm::MAX_FEE_BPS;
use crate::error::Error;
use crate::index::{AddressMap, IdIndex};
use crate::pair::{normalized, TokenPair};
use crate::uint::U256;
use vstd::prelude::*;

verus! {

/// Blocks that must pass between two refreshes of a pool, by default.
pub const DEFAULT_UPDATE_FREQUENCY: u64 = 100;

/// 10^18, one whole token in base units.
pub const ONE_TOKEN: u128 = 1_000_000_000_000_000_000;

/// A registered pool.
#[derive(Clone, Copy, Debug)]
pub struct PoolInfo {
    pub pool_address: Address,
    pub token_a: Address,
    pub token_b: Address,
    pub reserve_a: U256,
    pub reserve_b: U256,
    /// The fee in basis points (30 is 0.3%).
    pub fee_bps: U256,
    /// The kind of pool: 0 constant product, 1 concentrated, 2 stable, 3 weighted.
    pub pool_type: u8,
    /// The chain the pool lives on.
    pub chain_id: U256,
    pub is_active: bool,
    /// The block of the last refresh.
    pub last_updated: U256,
}

/// Statistics kept per pool for routing decisions.
#[derive(Clone, Copy, Debug)]
pub struct PoolStats {
    pub tvl_usd: U256,
    pub volume_24h_usd: U256,
    pub fees_24h_usd: U256,
    /// The price impact of a 1000-token swap, in basis points.
    pub price_impact_1k: U256,
    /// The share of liquidity in use, in percent.
    pub utilization_rate: U256,
}

/// The reserves a pool is taken to hold at `block`: one million tokens on
/// each side plus a block-dependent part.
pub open spec fn simulated_reserves_spec(block: nat) -> (nat, nat) {
    (
        (1_000_000 * ONE_TOKEN + (block % 100_000) * 1_000_000_000_000_000) as nat,
        (1_000_000 * ONE_TOKEN + ((block * 7) % 100_000) * 1_000_000_000_000_000) as nat,
    )
}

/// The reserves a pool is taken to hold at `block`; live reserves are not read.
pub fn simulated_reserves(block: u64) -> (r: (U256, U256))
    ensures
        (r.0@, r.1@) == simulated_reserves_spec(block as nat),
        r.0@ < 2_000_000 * ONE_TOKEN,
        r.1@ < 2_000_000 * ONE_TOKEN,
{
    let base: u128 = 1_000_000 * ONE_TOKEN;
    let step: u128 = 1_000_000_000_000_000;
    let a = base + (block % 100_000) as u128 * step;
    let b7 = ((block % 100_000) * 7) % 100_000;
    proof {
        assert((block as nat * 7) % 100_000 == ((block as nat % 100_000) * 7) % 100_000) by {
            vstd::arithmetic::div_mod::lemma_mul_mod_noop_left(block as int, 7, 100_000);
        }
    }
    let b = base + b7 as u128 * step;
    (U256::from_u128(a), U256::from_u128(b))
}

/// The statistics of a pool with these reserves and fee at `block`.
pub open spec fn stats_spec(reserve_a: nat, reserve_b: nat, fee_bps: nat, block: nat) -> (nat, nat, nat, nat, nat) {
    let tvl = (reserve_a + reserve_b) / (ONE_TOKEN as nat);
    let volume = tvl * (10 + block % 40) / 100;
    let fees = volume * fee_bps / 10_000;
    let swap = (1000 * ONE_TOKEN) as nat;
    let impact: nat = if reserve_a > swap {
        swap * 10_000 / reserve_a
    } else {
        1000
    };
    (tvl, volume, fees, impact, 20 + block % 60)
}

/// The fields of `stats` as numbers.
pub open spec fn stats_view(stats: PoolStats) -> (nat, nat, nat, nat, nat) {
    (
        stats.tvl_usd@,
        stats.volume_24h_usd@,
        stats.fees_24h_usd@,
        stats.price_impact_1k@,
        stats.utilization_rate@,
    )
}

/// Statistics estimated from a pool's reserves and fee at `block`: value
/// locked at one unit per token, daily volume 10 to 50% of it, fees on that
/// volume, the impact of a 1000-token swap, and a utilization of 20 to 80%.
fn generate_stats(reserve_a: U256, reserve_b: U256, fee_bps: U256, block: u64) -> (r: PoolStats)
    requires
        reserve_a@ < 2_000_000 * ONE_TOKEN,
        reserve_b@ < 2_000_000 * ONE_TOKEN,
        fee_bps@ <= MAX_FEE_BPS,
    ensures
        stats_view(r) == stats_spec(reserve_a@, reserve_b@, fee_bps@, block as nat),
{
    let a = reserve_a.low_u128();
    let b = reserve_b.low_u128();
    let fee = fee_bps.low_u128();
    let tvl = (a + b) / ONE_TOKEN;
    assert(tvl <= 4_000_000) by (nonlinear_arith)
        requires
            tvl == (a + b) / 1_000_000_000_000_000_000,
            a + b < 4_000_000_000_000_000_000_000_000,
    ;
    let factor = 10 + (block % 40) as u128;
    assert(tvl * factor <= 4_000_000 * 49) by (nonlinear_arith)
        requires
            tvl <= 4_000_000,
            factor <= 49,
    ;
    let volume = tvl * factor / 100;
    assert(volume * fee <= 4_000_000 * 49 * 1000) by (nonlinear_arith)
        requires
            volume <= tvl * factor,
            tvl * factor <= 4_000_000 * 49,
            fee <= 1000,
    ;
    let fees = volume * fee / 10_000;
    let swap: u128 = 1000 * ONE_TOKEN;
    let impact = if a > swap {
        swap * 10_000 / a
    } else {
        1000
    };
    PoolStats {
        tvl_usd: U256::from_u128(tvl),
        volume_24h_usd: U256::from_u128(volume),
        fees_24h_usd: U256::from_u128(fees),
        price_impact_1k: U256::from_u128(impact),
        utilization_rate: U256::from_u64(20 + block % 60),
    }
}

/// The ids among `ids` of pools that exist and are active, in order.
pub open spec fn active_ids(pools: Seq<PoolInfo>, ids: Seq<u64>) -> Seq<nat>
    decreases ids.len(),
{
    if ids.len() == 0 {
        Seq::empty()
    } else {
        let rest = active_ids(pools, ids.drop_last());
        let id = ids.last();
        if id < pools.len() && pools[id as int].is_active {
            rest.push(id as nat)
        } else {
            rest
        }
    }
}

/// Words seen as numbers.
pub open spec fn word_values(s: Seq<U256>) -> Seq<nat> {
    s.map_values(|w: U256| w@)
}

/// Why a pool with these parameters may not be registered, if it may not.
pub open spec fn registry_add_error(
    pools: Seq<PoolInfo>,
    pool_address: Address,
    token_a: Address,
    token_b: Address,
    fee_bps: nat,
) -> Option<Error> {
    if pool_address@ == 0 || token_a@ == 0 || token_b@ == 0 {
        Some(Error::InvalidAddress)
    } else if token_a == token_b {
        Some(Error::IdenticalTokens)
    } else if fee_bps > MAX_FEE_BPS {
        Some(Error::FeeTooHigh)
    } else if exists|j: int| 0 <= j < pools.len() && (#[trigger] pools[j]).pool_address == pool_address {
        Some(Error::PoolAlreadyExists)
    } else {
        None
    }
}

/// `after` is `before` refreshed at `block`: simulated reserves, new block.
pub open spec fn refreshed(before: PoolInfo, after: PoolInfo, block: nat) -> bool {
    &&& (after.reserve_a@, after.reserve_b@) == simulated_reserves_spec(block)
    &&& after.last_updated@ == block
    &&& after == (PoolInfo {
        reserve_a: after.reserve_a,
        reserve_b: after.reserve_b,
        last_updated: after.last_updated,
        ..before
    })
}

/// Every id is below `count` and the ids strictly increase.
pub open spec fn ids_ok(ids: Seq<u64>, count: nat) -> bool {
    &&& forall|i: int| 0 <= i < ids.len() ==> (#[trigger] ids[i]) < count
    &&& forall|i: int, j: int| 0 <= i < j < ids.len() ==> (#[trigger] ids[i]) < (#[trigger] ids[j])
}

proof fn lemma_ids_ok_grow(ids: Seq<u64>, count: nat, id: u64)
    requires
        ids_ok(ids, count),
        id == count,
    ensures
        ids_ok(ids, count + 1),
        ids_ok(ids.push(id), count + 1),
{
    let pushed = ids.push(id);
    assert forall|i: int, j: int| 0 <= i < j < pushed.len() implies (#[trigger] pushed[i]) < (
    #[trigger] pushed[j]) by {
        if j == ids.len() {
            assert(pushed[i] == ids[i]);
        } else {
            assert(pushed[i] == ids[i] && pushed[j] == ids[j]);
        }
    }
    assert forall|i: int| 0 <= i < pushed.len() implies (#[trigger] pushed[i]) < count + 1 by {
        if i < ids.len() {
            assert(pushed[i] == ids[i]);
        }
    }
}

/// The ids that `active_ids` keeps from strictly increasing ids below the
/// pool count strictly increase and name pools.
pub proof fn lemma_active_ids(pools: Seq<PoolInfo>, ids: Seq<u64>)
    requires
        ids_ok(ids, pools.len()),
    ensures
        forall|i: int| 0 <= i < active_ids(pools, ids).len() ==> #[trigger] active_ids(pools, ids)[i]
            < pools.len(),
        forall|i: int, j: int|
            0 <= i < j < active_ids(pools, ids).len() ==> #[trigger] active_ids(pools, ids)[i]
                < #[trigger] active_ids(pools, ids)[j],
        ids.len() > 0 ==> forall|i: int|
            0 <= i < active_ids(pools, ids).len() ==> #[trigger] active_ids(pools, ids)[i]
                <= ids.last(),
    decreases ids.len(),
{
    if ids.len() > 0 {
        let init = ids.drop_last();
        assert(ids_ok(init, pools.len())) by {
            assert forall|i: int, j: int| 0 <= i < j < init.len() implies (#[trigger] init[i]) < (
            #[trigger] init[j]) by {
                assert(init[i] == ids[i] && init[j] == ids[j]);
            }
            assert forall|i: int| 0 <= i < init.len() implies (#[trigger] init[i]) < pools.len() by {
                assert(init[i] == ids[i]);
            }
        }
        lemma_active_ids(pools, init);
        let rest = active_ids(pools, init);
        if init.len() > 0 {
            assert(init.last() == ids[ids.len() - 2]);
            assert(ids[ids.len() - 2] < ids[ids.len() - 1]);
        }
        assert forall|i: int| 0 <= i < rest.len() implies (#[trigger] rest[i]) < ids.last() by {
            if init.len() > 0 {
                assert(rest[i] <= init.last());
            }
        }
    }
}

/// The registry and all the state it owns.
pub struct PoolRegistry {
    pools: Vec<PoolInfo>,
    pool_stats: Vec<PoolStats>,
    pair_to_pools: IdIndex<TokenPair>,
    chain_pools: IdIndex<U256>,
    owner: Address,
    authorized_updaters: AddressMap<bool>,
    min_tvl_threshold: U256,
    max_price_impact: U256,
    update_frequency: U256,
    paused: bool,
    emergency_admin: Address,
}

impl PoolRegistry {
    /// Statistics exist for every pool, every fee is within `MAX_FEE_BPS`, and
    /// every bucket of the pair and chain indices holds strictly increasing ids
    /// of existing pools.
    pub closed spec fn wf(&self) -> bool {
        &&& self.authorized_updaters.wf()
        &&& self.pool_stats@.len() == self.pools@.len()
        &&& forall|j: int| 0 <= j < self.pools@.len() ==> (#[trigger] self.pools@[j]).fee_bps@ <= MAX_FEE_BPS
        &&& forall|p: TokenPair| ids_ok(#[trigger] self.pair_to_pools.ids(p), self.pools@.len())
        &&& forall|c: U256| ids_ok(#[trigger] self.chain_pools.ids(c), self.pools@.len())
    }

    /// The emergency admin; the zero address stands for none.
    pub closed spec fn emergency_admin_spec(&self) -> Address {
        self.emergency_admin
    }

    /// The pools, indexed by id.
    pub closed spec fn pools(&self) -> Seq<PoolInfo> {
        self.pools@
    }

    /// The statistics, indexed by pool id.
    pub closed spec fn stats(&self) -> Seq<PoolStats> {
        self.pool_stats@
    }

    /// The ids of the pools of a pair, in the order they were added.
    pub closed spec fn pair_ids(&self, pair: TokenPair) -> Seq<u64> {
        self.pair_to_pools.ids(pair)
    }

    /// The ids of the pools of a chain, in the order they were added.
    pub closed spec fn chain_ids(&self, chain_id: U256) -> Seq<u64> {
        self.chain_pools.ids(chain_id)
    }

    /// Whether `who` may add and refresh pools.
    pub closed spec fn may_update(&self, who: Address) -> bool {
        who == self.owner || (self.authorized_updaters.view().contains_key(who)
            && self.authorized_updaters.view()[who])
    }

    /// The owner.
    pub closed spec fn owner_spec(&self) -> Address {
        self.owner
    }

    /// Whether the registry is halted.
    pub closed spec fn paused_spec(&self) -> bool {
        self.paused
    }

    /// The blocks that must pass between two refreshes of a pool.
    pub closed spec fn update_frequency_spec(&self) -> nat {
        self.update_frequency@
    }

    /// An empty registry owned by `owner`, who may update it.
    pub fn initialize(owner: Address, min_tvl: U256, max_impact: U256) -> (r: PoolRegistry)
        ensures
            r.wf(),
            r.pools().len() == 0,
            r.owner_spec() == owner,
            r.may_update(owner),
            !r.paused_spec(),
            r.update_frequency_spec() == DEFAULT_UPDATE_FREQUENCY,
            forall|p: TokenPair| #[trigger] r.pair_ids(p) == Seq::<u64>::empty(),
            forall|c: U256| #[trigger] r.chain_ids(c) == Seq::<u64>::empty(),
    {
        let mut updaters = AddressMap::new();
        updaters.insert(owner, true);
        PoolRegistry {
            pools: Vec::new(),
            pool_stats: Vec::new(),
            pair_to_pools: IdIndex::new(),
            chain_pools: IdIndex::new(),
            owner,
            authorized_updaters: updaters,
            min_tvl_threshold: min_tvl,
            max_price_impact: max_impact,
            update_frequency: U256::from_u64(DEFAULT_UPDATE_FREQUENCY),
            paused: false,
            emergency_admin: Address::zero(),
        }
    }

    /// Whether `user` may add and refresh pools: the owner or an authorized updater.
    pub fn is_authorized_updater(&self, user: &Address) -> (r: bool)
        requires
            self.wf(),
        ensures
            r == self.may_update(*user),
    {
        if *user == self.owner {
            return true;
        }
        match self.authorized_updaters.get(user) {
            Some(allowed) => allowed,
            None => false,
        }
    }

    /// Registers an active pool at block `block` with simulated reserves and
    /// fresh statistics, filed under its pair and its chain; returns its id,
    /// the next unused one.
    pub fn add_pool(
        &mut self,
        caller: Address,
        block: u64,
        pool_address: Address,
        token_a: Address,
        token_b: Address,
        fee_bps: U256,
        pool_type: u8,
        chain_id: U256,
    ) -> (r: Result<U256, Error>)
        requires
            old(self).wf(),
        ensures
            final(self).wf(),
            final(self).owner_spec() == old(self).owner_spec(),
            final(self).paused_spec() == old(self).paused_spec(),
            !old(self).may_update(caller) ==> r == Err::<U256, Error>(Error::Unauthorized),
            old(self).may_update(caller) && old(self).paused_spec() ==> r == Err::<U256, Error>(
                Error::Paused,
            ),
            old(self).may_update(caller) && !old(self).paused_spec() ==> match registry_add_error(
                old(self).pools(),
                pool_address,
                token_a,
                token_b,
                fee_bps@,
            ) {
                Some(e) => r == Err::<U256, Error>(e),
                None => (r matches Ok(id) && id@ == old(self).pools().len() && final(self).pools()
                    == old(self).pools().push(
                    PoolInfo {
                        pool_address,
                        token_a,
                        token_b,
                        reserve_a: final(self).pools().last().reserve_a,
                        reserve_b: final(self).pools().last().reserve_b,
                        fee_bps,
                        pool_type,
                        chain_id,
                        is_active: true,
                        last_updated: final(self).pools().last().last_updated,
                    },
                ) && (final(self).pools().last().reserve_a@, final(self).pools().last().reserve_b@)
                    == simulated_reserves_spec(block as nat)
                    && final(self).pools().last().last_updated@ == block
                    && final(self).pair_ids(normalized(token_a, token_b)) == old(self).pair_ids(
                    normalized(token_a, token_b),
                ).push(id@ as u64) && final(self).chain_ids(chain_id) == old(self).chain_ids(
                    chain_id,
                ).push(id@ as u64) && (forall|p: TokenPair|
                    p != normalized(token_a, token_b) ==> #[trigger] final(self).pair_ids(p) == old(
                        self).pair_ids(p)) && (forall|c: U256|
                    c != chain_id ==> #[trigger] final(self).chain_ids(c) == old(self).chain_ids(c))
                    && final(self).stats().len() == old(self).stats().len() + 1 && final(
                    self).stats().drop_last() == old(self).stats() && stats_view(
                    final(self).stats().last(),
                ) == stats_spec(
                    simulated_reserves_spec(block as nat).0,
                    simulated_reserves_spec(block as nat).1,
                    fee_bps@,
                    block as nat,
                )),
            },
            forall|w: Address| #[trigger] final(self).may_update(w) == old(self).may_update(w),
            final(self).update_frequency_spec() == old(self).update_frequency_spec(),
            final(self).emergency_admin_spec() == old(self).emergency_admin_spec(),
            r is Err ==> final(self).pools() == old(self).pools() && final(self).stats() == old(
                self).stats() && (forall|p: TokenPair| #[trigger] final(self).pair_ids(p) == old(
                self).pair_ids(p)) && (forall|c: U256| #[trigger] final(self).chain_ids(c) == old(
                self).chain_ids(c)),
    {
        if !self.is_authorized_updater(&caller) {
            return Err(Error::Unauthorized);
        }
        if self.paused {
            return Err(Error::Paused);
        }
        if pool_address.is_zero() || token_a.is_zero() || token_b.is_zero() {
            return Err(Error::InvalidAddress);
        }
        if token_a == token_b {
            return Err(Error::IdenticalTokens);
        }
        if U256::from_u64(MAX_FEE_BPS).lt(&fee_bps) {
            return Err(Error::FeeTooHigh);
        }
        let mut i: usize = 0;
        while i < self.pools.len()
            invariant
                i <= self.pools@.len(),
                self.wf(),
                self.may_update(caller),
                !self.paused,
                !(pool_address@ == 0 || token_a@ == 0 || token_b@ == 0),
                token_a != token_b,
                fee_bps@ <= MAX_FEE_BPS,
                forall|j: int| 0 <= j < i ==> (#[trigger] self.pools@[j]).pool_address != pool_address,
            decreases self.pools@.len() - i,
        {
            if self.pools[i].pool_address == pool_address {
                assert(self.pools()[i as int].pool_address == pool_address);
                return Err(Error::PoolAlreadyExists);
            }
            i = i + 1;
        }
        let id = self.pools.len() as u64;
        let (reserve_a, reserve_b) = simulated_reserves(block);
        let pool = PoolInfo {
            pool_address,
            token_a,
            token_b,
            reserve_a,
            reserve_b,
            fee_bps,
            pool_type,
            chain_id,
            is_active: true,
            last_updated: U256::from_u64(block),
        };
        let stats = generate_stats(reserve_a, reserve_b, fee_bps, block);
        let ghost old_stats = self.pool_stats@;
        let ghost count = self.pools@.len();
        let pair = TokenPair::new(token_a, token_b);
        proof {
            assert(ids_ok(self.pair_to_pools.ids(pair), count));
            assert(ids_ok(self.chain_pools.ids(chain_id), count));
            lemma_ids_ok_grow(self.pair_to_pools.ids(pair), count, id);
            lemma_ids_ok_grow(self.chain_pools.ids(chain_id), count, id);
        }
        let ghost old_pairs = self.pair_to_pools;
        let ghost old_chains = self.chain_pools;
        self.pools.push(pool);
        self.pool_stats.push(stats);
        self.pair_to_pools.file(pair, id);
        self.chain_pools.file(chain_id, id);
        proof {
            assert(self.pool_stats@.drop_last() =~= old_stats);
            assert forall|p: TokenPair| ids_ok(#[trigger] self.pair_to_pools.ids(p), self.pools@.len()) by {
                if p != pair {
                    assert(ids_ok(old_pairs.ids(p), count));
                    lemma_ids_ok_grow(old_pairs.ids(p), count, id);
                }
            }
            assert forall|c: U256| ids_ok(#[trigger] self.chain_pools.ids(c), self.pools@.len()) by {
                if c != chain_id {
                    assert(ids_ok(old_chains.ids(c), count));
                    lemma_ids_ok_grow(old_chains.ids(c), count, id);
                }
            }
        }
        Ok(U256::from_u64(id))
    }

    /// Refreshes pool `pool_id` at block `block`: simulated reserves and new
    /// statistics, at most once per `update_frequency` blocks.
    pub fn update_pool(&mut self, caller: Address, block: u64, pool_id: U256) -> (r: Result<(), Error>)
        requires
            old(self).wf(),
        ensures
            final(self).wf(),
            final(self).owner_spec() == old(self).owner_spec(),
            final(self).paused_spec() == old(self).paused_spec(),
            forall|p: TokenPair| #[trigger] final(self).pair_ids(p) == old(self).pair_ids(p),
            forall|c: U256| #[trigger] final(self).chain_ids(c) == old(self).chain_ids(c),
            forall|w: Address| #[trigger] final(self).may_update(w) == old(self).may_update(w),
            final(self).update_frequency_spec() == old(self).update_frequency_spec(),
            final(self).emergency_admin_spec() == old(self).emergency_admin_spec(),
            r is Err ==> final(self).stats() == old(self).stats(),
            r is Ok ==> final(self).stats().len() == old(self).stats().len() && stats_view(
                final(self).stats()[pool_id@ as int],
            ) == stats_spec(
                simulated_reserves_spec(block as nat).0,
                simulated_reserves_spec(block as nat).1,
                old(self).pools()[pool_id@ as int].fee_bps@,
                block as nat,
            ) && forall|j: int|
                0 <= j < old(self).stats().len() && j != pool_id@ ==> #[trigger] final(self).stats()[j]
                    == old(self).stats()[j],
            !old(self).may_update(caller) ==> r == Err::<(), Error>(Error::Unauthorized),
            old(self).may_update(caller) && pool_id@ >= old(self).pools().len() ==> r == Err::<
                (),
                Error,
            >(Error::PoolNotFound),
            old(self).may_update(caller) && pool_id@ < old(self).pools().len() ==> (if block < old(self).pools()[pool_id@ as int].last_updated@ + old(self).update_frequency_spec() {
                r == Err::<(), Error>(Error::UpdateTooFrequent)
            } else {
                r is Ok && final(self).pools().len() == old(self).pools().len() && refreshed(
                    old(self).pools()[pool_id@ as int],
                    final(self).pools()[pool_id@ as int],
                    block as nat,
                ) && forall|j: int|
                    0 <= j < old(self).pools().len() && j != pool_id@ ==> #[trigger] final(self).pools()[j] == old(self).pools()[j]
            }),
            r is Err ==> final(self).pools() == old(self).pools(),
    {
        if !self.is_authorized_updater(&caller) {
            return Err(Error::Unauthorized);
        }
        let count = self.pools.len();
        if !pool_id.lt(&U256::from_u64(count as u64)) {
            return Err(Error::PoolNotFound);
        }
        let id = pool_id.low_u64() as usize;
        let mut pool = self.pools[id];
        let now = U256::from_u64(block);
        match pool.last_updated.checked_add(self.update_frequency) {
            Some(earliest) => {
                if now.lt(&earliest) {
                    return Err(Error::UpdateTooFrequent);
                }
            },
            None => {
                proof {
                    crate::uint::lemma_view_bound(now);
                }
                return Err(Error::UpdateTooFrequent);
            },
        }
        let (reserve_a, reserve_b) = simulated_reserves(block);
        pool.reserve_a = reserve_a;
        pool.reserve_b = reserve_b;
        pool.last_updated = now;
        let stats = generate_stats(reserve_a, reserve_b, pool.fee_bps, block);
        self.pools.set(id, pool);
        self.pool_stats.set(id, stats);
        Ok(())
    }

    fn active_among(&self, ids: &Vec<u64>) -> (r: Vec<U256>)
        ensures
            word_values(r@) == active_ids(self.pools(), ids@),
    {
        let mut result: Vec<U256> = Vec::new();
        let mut i: usize = 0;
        while i < ids.len()
            invariant
                i <= ids@.len(),
                word_values(result@) == active_ids(self.pools(), ids@.subrange(0, i as int)),
            decreases ids@.len() - i,
        {
            let id = ids[i];
            proof {
                assert(ids@.subrange(0, i + 1).drop_last() =~= ids@.subrange(0, i as int));
            }
            if id < self.pools.len() as u64 && self.pools[id as usize].is_active {
                let ghost before = result@;
                result.push(U256::from_u64(id));
                proof {
                    assert(word_values(result@) =~= word_values(before).push(id as nat));
                }
            }
            i = i + 1;
        }
        proof {
            assert(ids@.subrange(0, ids@.len() as int) =~= ids@);
        }
        result
    }

    /// The active pools of the pair `(token_a, token_b)`, either order, in the
    /// order they were added.
    pub fn get_pools_for_pair(&self, token_a: Address, token_b: Address) -> (r: Vec<U256>)
        requires
            self.wf(),
        ensures
            word_values(r@) == active_ids(self.pools(), self.pair_ids(normalized(token_a, token_b))),
            forall|i: int| 0 <= i < r@.len() ==> (#[trigger] r@[i])@ < self.pools().len(),
            forall|i: int, j: int| 0 <= i < j < r@.len() ==> (#[trigger] r@[i])@ < (#[trigger] r@[j])@,
    {
        proof {
            let ids = self.pair_ids(normalized(token_a, token_b));
            assert(ids_ok(self.pair_to_pools.ids(normalized(token_a, token_b)), self.pools@.len()));
            lemma_active_ids(self.pools(), ids);
        }
        let ids = self.pair_to_pools.lookup(&TokenPair::new(token_a, token_b));
        let r = self.active_among(&ids);
        proof {
            let v = word_values(r@);
            assert forall|i: int| 0 <= i < r@.len() implies (#[trigger] r@[i])@ < self.pools().len() by {
                assert(v[i] == r@[i]@);
            }
            assert forall|i: int, j: int| 0 <= i < j < r@.len() implies (#[trigger] r@[i])@ < (
            #[trigger] r@[j])@ by {
                assert(v[i] == r@[i]@ && v[j] == r@[j]@);
            }
        }
        r
    }

    /// The active pools on chain `chain_id`, in the order they were added.
    pub fn get_pools_by_chain(&self, chain_id: U256) -> (r: Vec<U256>)
        requires
            self.wf(),
        ensures
            word_values(r@) == active_ids(self.pools(), self.chain_ids(chain_id)),
            forall|i: int| 0 <= i < r@.len() ==> (#[trigger] r@[i])@ < self.pools().len(),
            forall|i: int, j: int| 0 <= i < j < r@.len() ==> (#[trigger] r@[i])@ < (#[trigger] r@[j])@,
    {
        proof {
            assert(ids_ok(self.chain_pools.ids(chain_id), self.pools@.len()));
            lemma_active_ids(self.pools(), self.chain_ids(chain_id));
        }
        let ids = self.chain_pools.lookup(&chain_id);
        let r = self.active_among(&ids);
        proof {
            let v = word_values(r@);
            assert forall|i: int| 0 <= i < r@.len() implies (#[trigger] r@[i])@ < self.pools().len() by {
                assert(v[i] == r@[i]@);
            }
            assert forall|i: int, j: int| 0 <= i < j < r@.len() implies (#[trigger] r@[i])@ < (
            #[trigger] r@[j])@ by {
                assert(v[i] == r@[i]@ && v[j] == r@[j]@);
            }
        }
        r
    }

    /// Pool `pool_id`, if there is one.
    pub fn get_pool_info(&self, pool_id: U256) -> (r: Option<PoolInfo>)
        ensures
            pool_id@ < self.pools().len() ==> r == Some(self.pools()[pool_id@ as int]),
            pool_id@ >= self.pools().len() ==> r is None,
    {
        if !pool_id.lt(&U256::from_u64(self.pools.len() as u64)) {
            return None;
        }
        Some(self.pools[pool_id.low_u64() as usize])
    }

    /// The statistics of pool `pool_id`, if there is one.
    pub fn get_pool_stats(&self, pool_id: U256) -> (r: Option<PoolStats>)
        requires
            self.wf(),
        ensures
            pool_id@ < self.pools().len() ==> r == Some(self.stats()[pool_id@ as int]),
            pool_id@ >= self.pools().len() ==> r is None,
    {
        if !pool_id.lt(&U256::from_u64(self.pools.len() as u64)) {
            return None;
        }
        Some(self.pool_stats[pool_id.low_u64() as usize])
    }

    /// The number of pools registered; pools are never removed.
    pub fn get_active_pool_count(&self) -> (r: U256)
        ensures
            r@ == self.pools().len(),
    {
        U256::from_u64(self.pools.len() as u64)
    }

    /// Lets `updater` add and refresh pools; only the owner may.
    pub fn add_updater(&mut self, caller: Address, updater: Address) -> (r: Result<(), Error>)
        requires
            old(self).wf(),
        ensures
            final(self).wf(),
            final(self).pools() == old(self).pools(),
            final(self).owner_spec() == old(self).owner_spec(),
            final(self).paused_spec() == old(self).paused_spec(),
            caller != old(self).owner_spec() ==> r == Err::<(), Error>(Error::Unauthorized),
            caller == old(self).owner_spec() ==> r is Ok && final(self).may_update(updater),
    {
        if caller != self.owner {
            return Err(Error::Unauthorized);
        }
        self.authorized_updaters.insert(updater, true);
        Ok(())
    }

    /// Halts the registry; only the owner or a nonzero emergency admin may.
    pub fn pause(&mut self, caller: Address) -> (r: Result<(), Error>)
        requires
            old(self).wf(),
        ensures
            final(self).wf(),
            final(self).pools() == old(self).pools(),
            final(self).owner_spec() == old(self).owner_spec(),
            r is Ok <==> (caller == old(self).owner_spec() || (caller
                == old(self).emergency_admin_spec() && old(self).emergency_admin_spec()@ != 0)),
            forall|p: TokenPair| #[trigger] final(self).pair_ids(p) == old(self).pair_ids(p),
            forall|c: U256| #[trigger] final(self).chain_ids(c) == old(self).chain_ids(c),
            final(self).stats() == old(self).stats(),
            r is Ok ==> final(self).paused_spec(),
            r is Err ==> r == Err::<(), Error>(Error::Unauthorized) && final(self).paused_spec()
                == old(self).paused_spec(),
    {
        if caller != self.owner && (caller != self.emergency_admin || self.emergency_admin.is_zero()) {
            return Err(Error::Unauthorized);
        }
        self.paused = true;
        Ok(())
    }

    /// Sets the registry's thresholds and refresh interval; only the owner may.
    pub fn update_config(&mut self, caller: Address, min_tvl: U256, max_impact: U256, update_freq: U256) -> (r:
        Result<(), Error>)
        requires
            old(self).wf(),
        ensures
            final(self).wf(),
            final(self).pools() == old(self).pools(),
            final(self).owner_spec() == old(self).owner_spec(),
            caller != old(self).owner_spec() ==> r == Err::<(), Error>(Error::Unauthorized)
                && final(self).update_frequency_spec() == old(self).update_frequency_spec(),
            caller == old(self).owner_spec() ==> r is Ok && final(self).update_frequency_spec()
                == update_freq@,
    {
        if caller != self.owner {
            return Err(Error::Unauthorized);
        }
        self.min_tvl_threshold = min_tvl;
        self.max_price_impact = max_impact;
        self.update_frequency = update_freq;
        Ok(())
    }
}

} // verus!
