//! The security-hardened router: an ordered validation pipeline guarding
//! route discovery over verified pools and the settlement of the trade.
use crate::address::Address;
use crate::amm::{
    price_impact_bps, price_impact_spec, secure_quote, secure_quote_spec, MAX_FEE_BPS,
    MAX_PRICE_IMPACT_BPS,
};
use crate::error::Error;
use crate::index::{AddressMap, IdIndex};
use crate::pair::{normalized, TokenPair};
use crate::uint::{word_modulus, U256};
use vstd::prelude::*;

verus! {

/// The largest slippage bound an intent may carry, in basis points.
pub const MAX_SLIPPAGE_BPS: u64 = 1000;

/// The shortest execution window an intent's deadline must leave, in seconds.
pub const INTENT_EXPIRY_BUFFER: u64 = 300;

/// The length of one daily-volume window, in seconds.
pub const VOLUME_WINDOW: u64 = 86400;

/// A pool as the hardened router keeps it.
#[derive(Clone, Copy, Debug)]
pub struct SecurePool {
    pub token_a: Address,
    pub token_b: Address,
    pub reserve_a: U256,
    pub reserve_b: U256,
    pub fee_bps: U256,
    pub pool_address: Address,
    pub is_verified: bool,
    pub created_at: U256,
    pub last_updated: U256,
}

/// A user's signed request to swap, checked before it is routed.
#[derive(Clone, Copy, Debug)]
pub struct ValidatedIntent {
    pub user: Address,
    pub token_in: Address,
    pub token_out: Address,
    pub amount_in: U256,
    pub min_amount_out: U256,
    pub deadline: U256,
    pub max_slippage_bps: U256,
    pub nonce: U256,
}

/// One hop of a route through a verified pool.
#[derive(Clone, Copy, Debug)]
pub struct SecureRouteStep {
    pub pool_id: U256,
    pub token_in: Address,
    pub token_out: Address,
    pub amount_in: U256,
    pub amount_out: U256,
    pub price_impact_bps: U256,
    pub verified: bool,
}

/// The value a map holds for `k`, or `d`.
pub open spec fn value_or(m: Map<Address, nat>, k: Address, d: nat) -> nat {
    if m.contains_key(k) {
        m[k]
    } else {
        d
    }
}

/// The counters that the pipeline reads and moves.
pub struct SecurityView {
    pub paused: bool,
    pub nonces: Map<Address, nat>,
    pub daily_volume: Map<Address, nat>,
    pub volume_reset_at: Map<Address, nat>,
    pub total_volume_24h: nat,
}

/// The limits the pipeline checks against, fixed at initialization.
pub struct Limits {
    pub min_trade: nat,
    pub max_trade: nat,
    pub max_daily_volume: nat,
    pub circuit_breaker_threshold: nat,
    pub initialized_at: nat,
}

impl SecurityView {
    /// The next nonce expected from `user`.
    pub open spec fn nonce(self, user: Address) -> nat {
        value_or(self.nonces, user, 0)
    }

    /// The volume `user` traded in the current window.
    pub open spec fn volume(self, user: Address) -> nat {
        value_or(self.daily_volume, user, 0)
    }

    /// When `user`'s current window opened.
    pub open spec fn reset_at(self, user: Address, limits: Limits) -> nat {
        value_or(self.volume_reset_at, user, limits.initialized_at)
    }
}

/// Whether `user`'s window has run out at `now`.
pub open spec fn window_expired(sec: SecurityView, limits: Limits, user: Address, now: nat) -> bool {
    now > sec.reset_at(user, limits) + VOLUME_WINDOW
}

/// `user`'s volume at `now`, after any reset of an expired window.
pub open spec fn volume_base(sec: SecurityView, limits: Limits, user: Address, now: nat) -> nat {
    if window_expired(sec, limits, user, now) {
        0
    } else {
        sec.volume(user)
    }
}

/// The first check of steps one to seven that `intent` fails, if any: the
/// checks that read but do not move the counters.
pub open spec fn intent_check_error(
    sec: SecurityView,
    limits: Limits,
    caller: Address,
    now: nat,
    intent: ValidatedIntent,
) -> Option<Error> {
    if sec.paused {
        Some(Error::Paused)
    } else if intent.user != caller {
        Some(Error::UserMismatch)
    } else if intent.token_in@ == 0 || intent.token_out@ == 0 {
        Some(Error::InvalidAddress)
    } else if intent.token_in == intent.token_out {
        Some(Error::IdenticalTokens)
    } else if intent.amount_in@ == 0 {
        Some(Error::ZeroAmount)
    } else if intent.amount_in@ < limits.min_trade {
        Some(Error::AmountBelowMinimum)
    } else if intent.amount_in@ > limits.max_trade {
        Some(Error::AmountExceedsMaximum)
    } else if intent.deadline@ <= now {
        Some(Error::TransactionExpired)
    } else if intent.deadline@ < now + INTENT_EXPIRY_BUFFER {
        Some(Error::DeadlineTooSoon)
    } else if intent.max_slippage_bps@ > MAX_SLIPPAGE_BPS {
        Some(Error::SlippageTooHigh)
    } else if intent.nonce@ != sec.nonce(intent.user) {
        Some(Error::InvalidNonce)
    } else if intent.nonce@ + 1 >= word_modulus() {
        Some(Error::ArithmeticOverflow)
    } else {
        None
    }
}

/// The first check of the whole pipeline that `intent` fails, if any.
pub open spec fn pipeline_error(
    sec: SecurityView,
    limits: Limits,
    caller: Address,
    now: nat,
    intent: ValidatedIntent,
) -> Option<Error> {
    if intent_check_error(sec, limits, caller, now, intent) is Some {
        intent_check_error(sec, limits, caller, now, intent)
    } else if volume_base(sec, limits, intent.user, now) + intent.amount_in@
        > limits.max_daily_volume {
        Some(Error::DailyVolumeExceeded)
    } else if sec.total_volume_24h + intent.amount_in@ > limits.circuit_breaker_threshold {
        Some(Error::CircuitBreakerTriggered)
    } else {
        None
    }
}

/// The counters after `intent` passed the pipeline and was executed.
pub open spec fn admitted(sec: SecurityView, limits: Limits, now: nat, intent: ValidatedIntent) -> SecurityView {
    let user = intent.user;
    SecurityView {
        paused: sec.paused,
        nonces: sec.nonces.insert(user, sec.nonce(user) + 1),
        daily_volume: sec.daily_volume.insert(
            user,
            volume_base(sec, limits, user, now) + intent.amount_in@,
        ),
        volume_reset_at: if window_expired(sec, limits, user, now) {
            sec.volume_reset_at.insert(user, now)
        } else {
            sec.volume_reset_at
        },
        total_volume_24h: sec.total_volume_24h + intent.amount_in@,
    }
}

/// The counters after the circuit breaker tripped: halted, nothing else moved.
pub open spec fn tripped(sec: SecurityView) -> SecurityView {
    SecurityView { paused: true, ..sec }
}

/// The reserves of `pool` on the side `token_in` enters, and on the other side.
pub open spec fn reserves_for(pool: SecurePool, token_in: Address) -> (nat, nat) {
    if token_in == pool.token_a {
        (pool.reserve_a@, pool.reserve_b@)
    } else {
        (pool.reserve_b@, pool.reserve_a@)
    }
}

/// The output pool `id` offers for `amount_in`, if it is a verified pool that prices the swap.
pub open spec fn candidate_output(
    pools: Seq<SecurePool>,
    id: u64,
    token_in: Address,
    amount_in: nat,
) -> Option<nat> {
    if id >= pools.len() || !pools[id as int].is_verified {
        None
    } else {
        let reserves = reserves_for(pools[id as int], token_in);
        match secure_quote_spec(reserves.0, reserves.1, amount_in, pools[id as int].fee_bps@) {
            Ok(out) => Some(out),
            Err(_) => None,
        }
    }
}

/// The candidate with the largest output, the first one seen among equals.
pub open spec fn best_candidate(
    pools: Seq<SecurePool>,
    ids: Seq<u64>,
    token_in: Address,
    amount_in: nat,
) -> Option<(u64, nat)>
    decreases ids.len(),
{
    if ids.len() == 0 {
        None
    } else {
        let earlier = best_candidate(pools, ids.drop_last(), token_in, amount_in);
        match candidate_output(pools, ids.last(), token_in, amount_in) {
            Some(out) => if earlier is None || out > earlier->Some_0.1 {
                Some((ids.last(), out))
            } else {
                earlier
            },
            None => earlier,
        }
    }
}

/// The route the hardened router picks among the pools `ids` of a pair:
/// `(pool id, output, price impact)`, or why there is none.
pub open spec fn route_spec(
    pools: Seq<SecurePool>,
    ids: Seq<u64>,
    token_in: Address,
    amount_in: nat,
    max_slippage_bps: nat,
) -> Result<(u64, nat, nat), Error> {
    if ids.len() == 0 {
        Err(Error::NoPoolForPair)
    } else {
        match best_candidate(pools, ids, token_in, amount_in) {
            None => Err(Error::NoVerifiedPoolAvailable),
            Some(best) => {
                let impact = price_impact_spec(
                    reserves_for(pools[best.0 as int], token_in).0,
                    amount_in,
                );
                if impact > max_slippage_bps {
                    Err(Error::PriceImpactTooHigh)
                } else {
                    Ok((best.0, best.1, impact))
                }
            },
        }
    }
}

/// Whether settling a swap of `amount_in` for `amount_out` through `pool`
/// would overflow the input reserve or underflow the output reserve.
pub open spec fn settle_fails(pool: SecurePool, token_in: Address, amount_in: nat, amount_out: nat) -> bool {
    reserves_for(pool, token_in).0 + amount_in >= word_modulus() || amount_out > reserves_for(
        pool,
        token_in,
    ).1
}

/// `after` is `before` with a swap of `amount_in` for `amount_out` settled at `now`.
pub open spec fn settled(
    before: SecurePool,
    after: SecurePool,
    token_in: Address,
    amount_in: nat,
    amount_out: nat,
    now: nat,
) -> bool {
    &&& reserves_for(after, token_in).0 == reserves_for(before, token_in).0 + amount_in
    &&& reserves_for(after, token_in).1 == reserves_for(before, token_in).1 - amount_out
    &&& after.last_updated@ == now
    &&& after.token_a == before.token_a
    &&& after.token_b == before.token_b
    &&& after.fee_bps == before.fee_bps
    &&& after.pool_address == before.pool_address
    &&& after.is_verified == before.is_verified
    &&& after.created_at == before.created_at
}

/// What executing `intent` yields: `(pool id, output, price impact)`, or the
/// first failure.
pub open spec fn execution_spec(
    sec: SecurityView,
    limits: Limits,
    pools: Seq<SecurePool>,
    ids: Seq<u64>,
    caller: Address,
    now: nat,
    intent: ValidatedIntent,
) -> Result<(u64, nat, nat), Error> {
    match pipeline_error(sec, limits, caller, now, intent) {
        Some(e) => Err(e),
        None => match route_spec(pools, ids, intent.token_in, intent.amount_in@, intent.max_slippage_bps@) {
            Err(e) => Err(e),
            Ok(route) => if settle_fails(pools[route.0 as int], intent.token_in, intent.amount_in@, route.1) {
                Err(Error::ArithmeticOverflow)
            } else if route.1 < intent.min_amount_out@ {
                Err(Error::InsufficientOutput)
            } else {
                Ok(route)
            },
        },
    }
}

/// The first step of a route that is unverified or moves the price more than
/// `max_slippage_bps`, with its reason.
pub open spec fn route_step_error(steps: Seq<SecureRouteStep>, max_slippage_bps: nat) -> Option<Error>
    decreases steps.len(),
{
    if steps.len() == 0 {
        None
    } else {
        match route_step_error(steps.drop_last(), max_slippage_bps) {
            Some(e) => Some(e),
            None => if !steps.last().verified {
                Some(Error::UnverifiedRouteStep)
            } else if steps.last().price_impact_bps@ > max_slippage_bps {
                Some(Error::PriceImpactTooHigh)
            } else {
                None
            },
        }
    }
}

/// `step` is the single step of `route` for swapping `amount_in` of `token_in` into `token_out`.
pub open spec fn step_is(
    step: SecureRouteStep,
    route: (u64, nat, nat),
    token_in: Address,
    token_out: Address,
    amount_in: U256,
) -> bool {
    &&& step.pool_id@ == route.0
    &&& step.token_in == token_in
    &&& step.token_out == token_out
    &&& step.amount_in == amount_in
    &&& step.amount_out@ == route.1
    &&& step.price_impact_bps@ == route.2
    &&& step.verified
}

/// The best candidate seen so far, as numbers.
pub open spec fn best_view(best: Option<(u64, U256)>) -> Option<(u64, nat)> {
    match best {
        Some(b) => Some((b.0, b.1@)),
        None => None,
    }
}

proof fn lemma_step_error_extends(steps: Seq<SecureRouteStep>, n: int, max_slippage_bps: nat)
    requires
        0 < n <= steps.len(),
        route_step_error(steps.subrange(0, n), max_slippage_bps) is Some,
    ensures
        route_step_error(steps, max_slippage_bps) == route_step_error(
            steps.subrange(0, n),
            max_slippage_bps,
        ),
    decreases steps.len() - n,
{
    if n < steps.len() {
        assert(steps.subrange(0, n + 1).drop_last() =~= steps.subrange(0, n));
        lemma_step_error_extends(steps, n + 1, max_slippage_bps);
    } else {
        assert(steps.subrange(0, n) =~= steps);
    }
}

proof fn lemma_best_is_candidate(pools: Seq<SecurePool>, ids: Seq<u64>, token_in: Address, amount_in: nat)
    ensures
        best_candidate(pools, ids, token_in, amount_in) matches Some(b) ==> candidate_output(
            pools,
            b.0,
            token_in,
            amount_in,
        ) == Some(b.1),
    decreases ids.len(),
{
    if ids.len() > 0 {
        lemma_best_is_candidate(pools, ids.drop_last(), token_in, amount_in);
    }
}

/// The reserves of `pool` on the side `token_in` enters, and on the other side.
fn reserves_in_out(pool: &SecurePool, token_in: &Address) -> (r: (U256, U256))
    ensures
        (r.0@, r.1@) == reserves_for(*pool, *token_in),
{
    if *token_in == pool.token_a {
        (pool.reserve_a, pool.reserve_b)
    } else {
        (pool.reserve_b, pool.reserve_a)
    }
}

/// Why a pool with these parameters may not be added, if it may not.
pub open spec fn pool_parameter_error(
    pools: Seq<SecurePool>,
    token_a: Address,
    token_b: Address,
    pool_address: Address,
    fee_bps: nat,
) -> Option<Error> {
    if token_a@ == 0 || token_b@ == 0 || pool_address@ == 0 {
        Some(Error::InvalidAddress)
    } else if token_a == token_b {
        Some(Error::IdenticalTokens)
    } else if fee_bps > MAX_FEE_BPS {
        Some(Error::FeeTooHigh)
    } else if exists|j: int| 0 <= j < pools.len() && (#[trigger] pools[j]).pool_address == pool_address {
        Some(Error::PoolAlreadyExists)
    } else {
        None
    }
}

/// The reserve each side of a newly added pool starts with (10^21).
pub const SIMULATED_RESERVE: u128 = 1_000_000_000_000_000_000_000;

/// `pool` is a freshly added, unverified pool with these parameters, both
/// reserves at `SIMULATED_RESERVE`, created at `now`.
pub open spec fn new_pool(
    pool: SecurePool,
    token_a: Address,
    token_b: Address,
    pool_address: Address,
    fee_bps: U256,
    now: U256,
) -> bool {
    &&& pool.token_a == token_a
    &&& pool.token_b == token_b
    &&& pool.pool_address == pool_address
    &&& pool.fee_bps == fee_bps
    &&& pool.reserve_a@ == SIMULATED_RESERVE
    &&& pool.reserve_b@ == SIMULATED_RESERVE
    &&& !pool.is_verified
    &&& pool.created_at == now
    &&& pool.last_updated == now
}

/// The reserves a pool at `pool_address` is taken to hold; live reserves are
/// not read, so every pool starts at `SIMULATED_RESERVE` on both sides.
pub fn verified_pool_reserves(pool_address: &Address) -> (r: (U256, U256))
    ensures
        r.0@ == SIMULATED_RESERVE,
        r.1@ == SIMULATED_RESERVE,
{
    let base = U256::from_u128(SIMULATED_RESERVE);
    (base, base)
}

/// The output of swapping `amount_in` of `token_in` through `pool`, with the
/// minimum-liquidity floor applied.
pub fn calculate_secure_swap_output(pool: &SecurePool, token_in: Address, amount_in: U256) -> (r:
    Result<U256, Error>)
    ensures
        crate::amm::result_view(r) == secure_quote_spec(
            reserves_for(*pool, token_in).0,
            reserves_for(*pool, token_in).1,
            amount_in@,
            pool.fee_bps@,
        ),
{
    let (reserve_in, reserve_out) = reserves_in_out(pool, &token_in);
    secure_quote(reserve_in, reserve_out, amount_in, pool.fee_bps)
}

/// The price-impact estimate of swapping `amount_in` of `token_in` through
/// `pool`; the cap where either reserve is empty.
pub fn calculate_price_impact(pool: &SecurePool, token_in: Address, amount_in: U256) -> (r: u32)
    ensures
        r == (if reserves_for(*pool, token_in).1 == 0 {
            MAX_PRICE_IMPACT_BPS as nat
        } else {
            price_impact_spec(reserves_for(*pool, token_in).0, amount_in@)
        }),
{
    let (reserve_in, reserve_out) = reserves_in_out(pool, &token_in);
    if reserve_out.is_zero() {
        return MAX_PRICE_IMPACT_BPS;
    }
    price_impact_bps(reserve_in, amount_in)
}

/// The sum of the price impacts of a route's steps.
pub open spec fn impact_sum(steps: Seq<SecureRouteStep>) -> nat
    decreases steps.len(),
{
    if steps.len() == 0 {
        0
    } else {
        impact_sum(steps.drop_last()) + steps.last().price_impact_bps@
    }
}

/// The aggregate price impact of a route: the plain sum of its steps' impacts.
pub fn calculate_total_price_impact(route: &Vec<SecureRouteStep>) -> (r: Result<U256, Error>)
    ensures
        impact_sum(route@) < word_modulus() ==> (r matches Ok(t) && t@ == impact_sum(route@)),
        impact_sum(route@) >= word_modulus() ==> r == Err::<U256, Error>(Error::ArithmeticOverflow),
{
    let mut total = U256::zero();
    let mut i: usize = 0;
    while i < route.len()
        invariant
            i <= route@.len(),
            total@ == impact_sum(route@.subrange(0, i as int)),
        decreases route@.len() - i,
    {
        proof {
            assert(route@.subrange(0, i + 1).drop_last() =~= route@.subrange(0, i as int));
        }
        total = match total.checked_add(route[i].price_impact_bps) {
            Some(t) => t,
            None => {
                proof {
                    lemma_impact_sum_grows(route@, (i + 1) as int);
                }
                return Err(Error::ArithmeticOverflow);
            },
        };
        i = i + 1;
    }
    proof {
        assert(route@.subrange(0, route@.len() as int) =~= route@);
    }
    Ok(total)
}

proof fn lemma_impact_sum_grows(steps: Seq<SecureRouteStep>, n: int)
    requires
        0 <= n <= steps.len(),
    ensures
        impact_sum(steps.subrange(0, n)) <= impact_sum(steps),
    decreases steps.len() - n,
{
    if n < steps.len() {
        assert(steps.subrange(0, n + 1).drop_last() =~= steps.subrange(0, n));
        lemma_impact_sum_grows(steps, n + 1);
    } else {
        assert(steps.subrange(0, n) =~= steps);
    }
}

/// The security-hardened router and all the state it owns.
pub struct SecureAquaFlowRouter {
    pools: Vec<SecurePool>,
    pair_to_pools: IdIndex<TokenPair>,
    owner: Address,
    emergency_admin: Address,
    fee_recipient: Address,
    paused: bool,
    authorized_callers: AddressMap<bool>,
    pool_validators: AddressMap<bool>,
    user_nonces: AddressMap<U256>,
    daily_volume: AddressMap<U256>,
    volume_reset_at: AddressMap<U256>,
    initialized_at: U256,
    max_daily_volume: U256,
    protocol_fee_bps: U256,
    min_trade_amount: U256,
    max_trade_amount: U256,
    pool_creation_fee: U256,
    circuit_breaker_threshold: U256,
    total_volume_24h: U256,
    emergency_withdrawal_delay: U256,
}

/// A map of words seen as a map of numbers.
pub open spec fn numbers(m: Map<Address, U256>) -> Map<Address, nat> {
    m.map_values(|v: U256| v@)
}

impl SecureAquaFlowRouter {
    /// The stores are well formed.
    pub closed spec fn wf(&self) -> bool {
        &&& self.authorized_callers.wf()
        &&& self.pool_validators.wf()
        &&& self.user_nonces.wf()
        &&& self.daily_volume.wf()
        &&& self.volume_reset_at.wf()
    }

    /// The pipeline's counters.
    pub closed spec fn security(&self) -> SecurityView {
        SecurityView {
            paused: self.paused,
            nonces: numbers(self.user_nonces.view()),
            daily_volume: numbers(self.daily_volume.view()),
            volume_reset_at: numbers(self.volume_reset_at.view()),
            total_volume_24h: self.total_volume_24h@,
        }
    }

    /// The pipeline's limits.
    pub closed spec fn limits(&self) -> Limits {
        Limits {
            min_trade: self.min_trade_amount@,
            max_trade: self.max_trade_amount@,
            max_daily_volume: self.max_daily_volume@,
            circuit_breaker_threshold: self.circuit_breaker_threshold@,
            initialized_at: self.initialized_at@,
        }
    }

    /// The pools, indexed by id.
    pub closed spec fn pools(&self) -> Seq<SecurePool> {
        self.pools@
    }

    /// The ids of the pools of a pair, in the order they were added.
    pub closed spec fn pool_ids(&self, pair: TokenPair) -> Seq<u64> {
        self.pair_to_pools.ids(pair)
    }

    /// The owner.
    pub closed spec fn owner_spec(&self) -> Address {
        self.owner
    }

    /// The emergency admin.
    pub closed spec fn emergency_admin_spec(&self) -> Address {
        self.emergency_admin
    }

    /// Whether `who` may add pools.
    pub closed spec fn may_add_pools(&self, who: Address) -> bool {
        who == self.owner || (self.authorized_callers.view().contains_key(who)
            && self.authorized_callers.view()[who])
    }

    /// Whether `who` may verify pools.
    pub closed spec fn may_verify_pools(&self, who: Address) -> bool {
        self.pool_validators.view().contains_key(who) && self.pool_validators.view()[who]
    }

    /// A router with the default limits, opened at `now`; every role must be a
    /// nonzero address.
    pub fn initialize(owner: Address, emergency_admin: Address, fee_recipient: Address, now: U256) -> (r: Result<
        SecureAquaFlowRouter,
        Error,
    >)
        ensures
            r is Err <==> (owner@ == 0 || emergency_admin@ == 0 || fee_recipient@ == 0),
            r matches Err(e) ==> e == Error::InvalidParameters,
            r matches Ok(router) ==> (router.wf() && router.owner_spec() == owner && router.pools().len() == 0
                && router.security().paused == false && router.security().nonces.is_empty()
                && router.security().daily_volume.is_empty()
                && router.security().volume_reset_at.is_empty()
                && router.security().total_volume_24h == 0 && router.limits() == (Limits {
                min_trade: 1000,
                max_trade: 100_000_000_000_000_000_000_000,
                max_daily_volume: 1_000_000_000_000_000_000_000_000,
                circuit_breaker_threshold: 10_000_000_000_000_000_000_000_000,
                initialized_at: now@,
            }) && forall|p: TokenPair| #[trigger] router.pool_ids(p) == Seq::<u64>::empty()),
    {
        if owner.is_zero() || emergency_admin.is_zero() || fee_recipient.is_zero() {
            return Err(Error::InvalidParameters);
        }
        let router = SecureAquaFlowRouter {
            pools: Vec::new(),
            pair_to_pools: IdIndex::new(),
            owner,
            emergency_admin,
            fee_recipient,
            paused: false,
            authorized_callers: AddressMap::new(),
            pool_validators: AddressMap::new(),
            user_nonces: AddressMap::new(),
            daily_volume: AddressMap::new(),
            volume_reset_at: AddressMap::new(),
            initialized_at: now,
            max_daily_volume: U256::from_u128(1_000_000_000_000_000_000_000_000),
            protocol_fee_bps: U256::from_u64(30),
            min_trade_amount: U256::from_u64(1000),
            max_trade_amount: U256::from_u128(100_000_000_000_000_000_000_000),
            pool_creation_fee: U256::from_u128(100_000_000_000_000_000),
            circuit_breaker_threshold: U256::from_u128(10_000_000_000_000_000_000_000_000),
            total_volume_24h: U256::zero(),
            emergency_withdrawal_delay: U256::from_u64(86400),
        };
        assert(router.security().nonces =~= Map::empty());
        assert(router.security().daily_volume =~= Map::empty());
        assert(router.security().volume_reset_at =~= Map::empty());
        Ok(router)
    }

    /// The next nonce expected from `user`.
    fn expected_nonce(&self, user: &Address) -> (r: U256)
        requires
            self.wf(),
        ensures
            r@ == self.security().nonce(*user),
    {
        match self.user_nonces.get(user) {
            Some(n) => n,
            None => U256::zero(),
        }
    }

    /// Steps one to seven of the pipeline; on success, the user's next nonce.
    fn validate_secure_intent(&self, caller: &Address, now: &U256, intent: &ValidatedIntent) -> (r:
        Result<U256, Error>)
        requires
            self.wf(),
        ensures
            match intent_check_error(self.security(), self.limits(), *caller, now@, *intent) {
                Some(e) => r == Err::<U256, Error>(e),
                None => (r matches Ok(n) && n@ == self.security().nonce(intent.user) + 1),
            },
    {
        if self.paused {
            return Err(Error::Paused);
        }
        if intent.user != *caller {
            return Err(Error::UserMismatch);
        }
        if intent.token_in.is_zero() || intent.token_out.is_zero() {
            return Err(Error::InvalidAddress);
        }
        if intent.token_in == intent.token_out {
            return Err(Error::IdenticalTokens);
        }
        if intent.amount_in.is_zero() {
            return Err(Error::ZeroAmount);
        }
        if intent.amount_in.lt(&self.min_trade_amount) {
            return Err(Error::AmountBelowMinimum);
        }
        if self.max_trade_amount.lt(&intent.amount_in) {
            return Err(Error::AmountExceedsMaximum);
        }
        if !now.lt(&intent.deadline) {
            return Err(Error::TransactionExpired);
        }
        match now.checked_add(U256::from_u64(INTENT_EXPIRY_BUFFER)) {
            Some(earliest) => {
                if intent.deadline.lt(&earliest) {
                    return Err(Error::DeadlineTooSoon);
                }
            },
            None => {
                proof {
                    crate::uint::lemma_view_bound(intent.deadline);
                }
                return Err(Error::DeadlineTooSoon);
            },
        }
        if U256::from_u64(MAX_SLIPPAGE_BPS).lt(&intent.max_slippage_bps) {
            return Err(Error::SlippageTooHigh);
        }
        let expected = self.expected_nonce(&intent.user);
        proof {
            if intent.nonce@ == expected@ {
                crate::uint::lemma_view_injective(intent.nonce, expected);
            }
        }
        if intent.nonce != expected {
            return Err(Error::InvalidNonce);
        }
        match expected.checked_add(U256::from_u64(1)) {
            Some(next) => Ok(next),
            None => Err(Error::ArithmeticOverflow),
        }
    }

    /// When `user`'s current window opened.
    fn window_start(&self, user: &Address) -> (r: U256)
        requires
            self.wf(),
        ensures
            r@ == self.security().reset_at(*user, self.limits()),
    {
        match self.volume_reset_at.get(user) {
            Some(t) => t,
            None => self.initialized_at,
        }
    }

    /// Step eight: `user`'s volume once this trade is counted, emptying an
    /// expired window first, and whether it had expired. Nothing is committed.
    fn check_abuse_protection(&self, now: &U256, intent: &ValidatedIntent) -> (r: Result<
        (U256, bool),
        Error,
    >)
        requires
            self.wf(),
        ensures
            volume_base(self.security(), self.limits(), intent.user, now@) + intent.amount_in@
                > self.limits().max_daily_volume ==> r == Err::<(U256, bool), Error>(
                Error::DailyVolumeExceeded,
            ),
            volume_base(self.security(), self.limits(), intent.user, now@) + intent.amount_in@
                <= self.limits().max_daily_volume ==> (r matches Ok(v) && v.0@ == volume_base(
                self.security(),
                self.limits(),
                intent.user,
                now@,
            ) + intent.amount_in@ && v.1 == window_expired(
                self.security(),
                self.limits(),
                intent.user,
                now@,
            )),
    {
        let start = self.window_start(&intent.user);
        let expired = match start.checked_add(U256::from_u64(VOLUME_WINDOW)) {
            Some(end) => end.lt(now),
            None => {
                proof {
                    crate::uint::lemma_view_bound(*now);
                }
                false
            },
        };
        let current = if expired {
            U256::zero()
        } else {
            match self.daily_volume.get(&intent.user) {
                Some(v) => v,
                None => U256::zero(),
            }
        };
        proof {
            crate::uint::lemma_view_bound(self.max_daily_volume);
        }
        match current.checked_add(intent.amount_in) {
            Some(total) => {
                if self.max_daily_volume.lt(&total) {
                    Err(Error::DailyVolumeExceeded)
                } else {
                    Ok((total, expired))
                }
            },
            None => Err(Error::DailyVolumeExceeded),
        }
    }

    /// Step nine: the total volume once this trade is counted; where it would
    /// pass the threshold the router is paused and the call fails.
    fn check_circuit_breaker(&mut self, intent: &ValidatedIntent) -> (r: Result<U256, Error>)
        requires
            old(self).wf(),
        ensures
            final(self).wf(),
            final(self).limits() == old(self).limits(),
            final(self).owner_spec() == old(self).owner_spec(),
            final(self).pools() == old(self).pools(),
            forall|p: TokenPair| #[trigger] final(self).pool_ids(p) == old(self).pool_ids(p),
            old(self).security().total_volume_24h + intent.amount_in@ > old(self).limits().circuit_breaker_threshold ==> r == Err::<U256, Error>(
                Error::CircuitBreakerTriggered,
            ) && final(self).security() == tripped(old(self).security()),
            old(self).security().total_volume_24h + intent.amount_in@ <= old(self).limits().circuit_breaker_threshold ==> (r matches Ok(t) && t@ == old(self).security().total_volume_24h + intent.amount_in@ && final(self).security() == old(self).security()),
    {
        proof {
            crate::uint::lemma_view_bound(self.circuit_breaker_threshold);
        }
        let total = match self.total_volume_24h.checked_add(intent.amount_in) {
            Some(t) => t,
            None => {
                self.paused = true;
                return Err(Error::CircuitBreakerTriggered);
            },
        };
        if self.circuit_breaker_threshold.lt(&total) {
            self.paused = true;
            return Err(Error::CircuitBreakerTriggered);
        }
        Ok(total)
    }

    /// Route discovery: among the verified pools of the pair that price the
    /// swap, the one with the largest output, refused when its price impact
    /// exceeds `max_slippage_bps`. The route has a single step.
    pub fn find_secure_route(
        &self,
        token_in: Address,
        token_out: Address,
        amount_in: U256,
        max_slippage_bps: U256,
    ) -> (r: Result<Vec<SecureRouteStep>, Error>)
        ensures
            match route_spec(
                self.pools(),
                self.pool_ids(normalized(token_in, token_out)),
                token_in,
                amount_in@,
                max_slippage_bps@,
            ) {
                Err(e) => r == Err::<Vec<SecureRouteStep>, Error>(e),
                Ok(route) => (r matches Ok(steps) && steps@.len() == 1 && step_is(
                    steps@[0],
                    route,
                    token_in,
                    token_out,
                    amount_in,
                )),
            },
    {
        let ids = self.pair_to_pools.lookup(&TokenPair::new(token_in, token_out));
        if ids.len() == 0 {
            return Err(Error::NoPoolForPair);
        }
        let mut best: Option<(u64, U256)> = None;
        let mut i: usize = 0;
        while i < ids.len()
            invariant
                i <= ids@.len(),
                ids@ == self.pool_ids(normalized(token_in, token_out)),
                best_view(best) == best_candidate(
                    self.pools(),
                    ids@.subrange(0, i as int),
                    token_in,
                    amount_in@,
                ),
            decreases ids@.len() - i,
        {
            let id = ids[i];
            proof {
                assert(ids@.subrange(0, i + 1).drop_last() =~= ids@.subrange(0, i as int));
            }
            if id < self.pools.len() as u64 {
                let pool = self.pools[id as usize];
                if pool.is_verified {
                    match calculate_secure_swap_output(&pool, token_in, amount_in) {
                        Ok(out) => {
                            let better = match best {
                                None => true,
                                Some((_, seen)) => seen.lt(&out),
                            };
                            if better {
                                best = Some((id, out));
                            }
                        },
                        Err(_) => {},
                    }
                }
            }
            i = i + 1;
        }
        proof {
            assert(ids@.subrange(0, ids@.len() as int) =~= ids@);
        }
        let (best_id, best_out) = match best {
            Some(b) => b,
            None => return Err(Error::NoVerifiedPoolAvailable),
        };
        let count = self.pools.len();
        proof {
            lemma_best_is_candidate(self.pools(), ids@, token_in, amount_in@);
        }
        let pool = self.pools[best_id as usize];
        let impact = calculate_price_impact(&pool, token_in, amount_in);
        let impact_word = U256::from_u64(impact as u64);
        if max_slippage_bps.lt(&impact_word) {
            return Err(Error::PriceImpactTooHigh);
        }
        let step = SecureRouteStep {
            pool_id: U256::from_u64(best_id),
            token_in,
            token_out,
            amount_in,
            amount_out: best_out,
            price_impact_bps: impact_word,
            verified: true,
        };
        Ok(vec![step])
    }

    /// The second, hard gate on a route: it is not empty, and each step is
    /// verified and within the intent's slippage bound.
    fn validate_route_security(&self, route: &Vec<SecureRouteStep>, intent: &ValidatedIntent) -> (r:
        Result<(), Error>)
        ensures
            route@.len() == 0 ==> r == Err::<(), Error>(Error::EmptyRoute),
            route@.len() > 0 ==> match route_step_error(route@, intent.max_slippage_bps@) {
                Some(e) => r == Err::<(), Error>(e),
                None => r is Ok,
            },
    {
        if route.len() == 0 {
            return Err(Error::EmptyRoute);
        }
        let mut i: usize = 0;
        while i < route.len()
            invariant
                i <= route@.len(),
                route_step_error(route@.subrange(0, i as int), intent.max_slippage_bps@) is None,
            decreases route@.len() - i,
        {
            proof {
                assert(route@.subrange(0, i + 1).drop_last() =~= route@.subrange(0, i as int));
            }
            if !route[i].verified {
                proof {
                    lemma_step_error_extends(route@, (i + 1) as int, intent.max_slippage_bps@);
                }
                return Err(Error::UnverifiedRouteStep);
            }
            if intent.max_slippage_bps.lt(&route[i].price_impact_bps) {
                proof {
                    lemma_step_error_extends(route@, (i + 1) as int, intent.max_slippage_bps@);
                }
                return Err(Error::PriceImpactTooHigh);
            }
            i = i + 1;
        }
        proof {
            assert(route@.subrange(0, route@.len() as int) =~= route@);
        }
        Ok(())
    }

    /// The pool of `step` with the swap settled at `now`; nothing is committed.
    fn settle_step(&self, step: &SecureRouteStep, now: U256) -> (r: Result<SecurePool, Error>)
        requires
            step.pool_id@ < self.pools().len(),
        ensures
            settle_fails(
                self.pools()[step.pool_id@ as int],
                step.token_in,
                step.amount_in@,
                step.amount_out@,
            ) ==> r == Err::<SecurePool, Error>(Error::ArithmeticOverflow),
            !settle_fails(
                self.pools()[step.pool_id@ as int],
                step.token_in,
                step.amount_in@,
                step.amount_out@,
            ) ==> (r matches Ok(p) && settled(
                self.pools()[step.pool_id@ as int],
                p,
                step.token_in,
                step.amount_in@,
                step.amount_out@,
                now@,
            )),
    {
        let count = self.pools.len();
        proof {
            assert(count < crate::uint::limb_base());
        }
        let id = step.pool_id.low_u64() as usize;
        let mut pool = self.pools[id];
        if step.token_in == pool.token_a {
            pool.reserve_a = match pool.reserve_a.checked_add(step.amount_in) {
                Some(x) => x,
                None => return Err(Error::ArithmeticOverflow),
            };
            pool.reserve_b = match pool.reserve_b.checked_sub(step.amount_out) {
                Some(x) => x,
                None => return Err(Error::ArithmeticOverflow),
            };
        } else {
            pool.reserve_b = match pool.reserve_b.checked_add(step.amount_in) {
                Some(x) => x,
                None => return Err(Error::ArithmeticOverflow),
            };
            pool.reserve_a = match pool.reserve_a.checked_sub(step.amount_out) {
                Some(x) => x,
                None => return Err(Error::ArithmeticOverflow),
            };
        }
        pool.last_updated = now;
        Ok(pool)
    }

    /// Commits an executed trade: the counters and the settled pool.
    fn commit_trade(
        &mut self,
        intent: &ValidatedIntent,
        next_nonce: U256,
        new_volume: U256,
        expired: bool,
        now: U256,
        new_total: U256,
        id: usize,
        pool: SecurePool,
    )
        requires
            old(self).wf(),
            id < old(self).pools().len(),
        ensures
            final(self).wf(),
            final(self).limits() == old(self).limits(),
            final(self).owner_spec() == old(self).owner_spec(),
            forall|p: TokenPair| #[trigger] final(self).pool_ids(p) == old(self).pool_ids(p),
            final(self).pools() == old(self).pools().update(id as int, pool),
            final(self).security() == (SecurityView {
                paused: old(self).security().paused,
                nonces: old(self).security().nonces.insert(intent.user, next_nonce@),
                daily_volume: old(self).security().daily_volume.insert(intent.user, new_volume@),
                volume_reset_at: if expired {
                    old(self).security().volume_reset_at.insert(intent.user, now@)
                } else {
                    old(self).security().volume_reset_at
                },
                total_volume_24h: new_total@,
            }),
    {
        self.user_nonces.insert(intent.user, next_nonce);
        self.daily_volume.insert(intent.user, new_volume);
        if expired {
            self.volume_reset_at.insert(intent.user, now);
        }
        self.total_volume_24h = new_total;
        self.pools.set(id, pool);
        proof {
            assert(self.security().nonces =~= old(self).security().nonces.insert(
                intent.user,
                next_nonce@,
            ));
            assert(self.security().daily_volume =~= old(self).security().daily_volume.insert(
                intent.user,
                new_volume@,
            ));
            if expired {
                assert(self.security().volume_reset_at =~= old(self).security().volume_reset_at.insert(intent.user, now@));
            }
        }
    }

    /// Executes `intent` for `caller` at time `now`: the pipeline, route
    /// discovery, the route checks, and settlement. On success the user's
    /// nonce, daily volume and the total volume move and the pool's reserves
    /// take the trade; on failure nothing moves, except that a tripped
    /// circuit breaker leaves the router paused.
    pub fn execute_secure_intent(&mut self, caller: Address, now: U256, intent: ValidatedIntent) -> (r:
        Result<U256, Error>)
        requires
            old(self).wf(),
        ensures
            final(self).wf(),
            final(self).limits() == old(self).limits(),
            final(self).owner_spec() == old(self).owner_spec(),
            forall|p: TokenPair| #[trigger] final(self).pool_ids(p) == old(self).pool_ids(p),
            match execution_spec(
                old(self).security(),
                old(self).limits(),
                old(self).pools(),
                old(self).pool_ids(normalized(intent.token_in, intent.token_out)),
                caller,
                now@,
                intent,
            ) {
                Ok(route) => (r matches Ok(out) && out@ == route.1 && final(self).security()
                    == admitted(old(self).security(), old(self).limits(), now@, intent) && final(self).pools().len() == old(self).pools().len() && (forall|j: int|
                    0 <= j < old(self).pools().len() && j != route.0 ==> #[trigger] final(self).pools()[j] == old(self).pools()[j]) && settled(
                    old(self).pools()[route.0 as int],
                    final(self).pools()[route.0 as int],
                    intent.token_in,
                    intent.amount_in@,
                    route.1,
                    now@,
                )),
                Err(e) => r == Err::<U256, Error>(e) && final(self).pools() == old(self).pools()
                    && final(self).security() == (if e == Error::CircuitBreakerTriggered {
                    tripped(old(self).security())
                } else {
                    old(self).security()
                }),
            },
    {
        let next_nonce = match self.validate_secure_intent(&caller, &now, &intent) {
            Ok(n) => n,
            Err(e) => return Err(e),
        };
        let (new_volume, expired) = match self.check_abuse_protection(&now, &intent) {
            Ok(v) => v,
            Err(e) => return Err(e),
        };
        let new_total = match self.check_circuit_breaker(&intent) {
            Ok(t) => t,
            Err(e) => return Err(e),
        };
        let route = match self.find_secure_route(
            intent.token_in,
            intent.token_out,
            intent.amount_in,
            intent.max_slippage_bps,
        ) {
            Ok(route) => route,
            Err(e) => return Err(e),
        };
        proof {
            assert(route@.drop_last() =~= Seq::<SecureRouteStep>::empty());
            assert(route_step_error(route@.drop_last(), intent.max_slippage_bps@) is None);
            assert(route_step_error(route@, intent.max_slippage_bps@) is None);
            lemma_best_is_candidate(
                self.pools(),
                self.pool_ids(normalized(intent.token_in, intent.token_out)),
                intent.token_in,
                intent.amount_in@,
            );
        }
        match self.validate_route_security(&route, &intent) {
            Ok(()) => {},
            Err(e) => return Err(e),
        }
        let step = route[0];
        let settled_pool = match self.settle_step(&step, now) {
            Ok(p) => p,
            Err(e) => return Err(e),
        };
        if step.amount_out.lt(&intent.min_amount_out) {
            return Err(Error::InsufficientOutput);
        }
        let count = self.pools.len();
        proof {
            assert(count < crate::uint::limb_base());
        }
        let id = step.pool_id.low_u64() as usize;
        self.commit_trade(&intent, next_nonce, new_volume, expired, now, new_total, id, settled_pool);
        proof {
            let after = admitted(old(self).security(), old(self).limits(), now@, intent);
            assert(self.security().nonces =~= after.nonces);
            assert(self.security().daily_volume =~= after.daily_volume);
            assert(self.security().volume_reset_at =~= after.volume_reset_at);
        }
        Ok(step.amount_out)
    }

    /// Whether `caller` may add pools: the owner, or an authorized caller.
    pub fn is_authorized_caller(&self, caller: &Address) -> (r: bool)
        requires
            self.wf(),
        ensures
            r == self.may_add_pools(*caller),
    {
        if *caller == self.owner {
            return true;
        }
        match self.authorized_callers.get(caller) {
            Some(allowed) => allowed,
            None => false,
        }
    }

    /// Checks a new pool's parameters: nonzero addresses, distinct tokens, a
    /// fee within `MAX_FEE_BPS`, and a pool address not yet registered.
    fn validate_pool_parameters(
        &self,
        token_a: &Address,
        token_b: &Address,
        pool_address: &Address,
        fee_bps: &U256,
    ) -> (r: Result<(), Error>)
        ensures
            match pool_parameter_error(self.pools(), *token_a, *token_b, *pool_address, fee_bps@) {
                Some(e) => r == Err::<(), Error>(e),
                None => r is Ok,
            },
    {
        if token_a.is_zero() || token_b.is_zero() || pool_address.is_zero() {
            return Err(Error::InvalidAddress);
        }
        if *token_a == *token_b {
            return Err(Error::IdenticalTokens);
        }
        if U256::from_u64(MAX_FEE_BPS).lt(fee_bps) {
            return Err(Error::FeeTooHigh);
        }
        let mut i: usize = 0;
        while i < self.pools.len()
            invariant
                i <= self.pools@.len(),
                !(token_a@ == 0 || token_b@ == 0 || pool_address@ == 0),
                *token_a != *token_b,
                fee_bps@ <= MAX_FEE_BPS,
                forall|j: int| 0 <= j < i ==> (#[trigger] self.pools@[j]).pool_address != *pool_address,
            decreases self.pools@.len() - i,
        {
            if self.pools[i].pool_address == *pool_address {
                assert(self.pools()[i as int].pool_address == *pool_address);
                return Err(Error::PoolAlreadyExists);
            }
            i = i + 1;
        }
        Ok(())
    }

    /// Registers a pool for the pair `(token_a, token_b)`, unverified, with the
    /// reserves `verified_pool_reserves` reports; returns its id, the next
    /// unused one.
    pub fn add_secure_pool(
        &mut self,
        caller: Address,
        now: U256,
        token_a: Address,
        token_b: Address,
        pool_address: Address,
        fee_bps: U256,
    ) -> (r: Result<U256, Error>)
        requires
            old(self).wf(),
        ensures
            final(self).wf(),
            final(self).security() == old(self).security(),
            final(self).limits() == old(self).limits(),
            final(self).owner_spec() == old(self).owner_spec(),
            !old(self).may_add_pools(caller) ==> r == Err::<U256, Error>(Error::Unauthorized),
            old(self).may_add_pools(caller) ==> match pool_parameter_error(
                old(self).pools(),
                token_a,
                token_b,
                pool_address,
                fee_bps@,
            ) {
                Some(e) => r == Err::<U256, Error>(e),
                None => (r matches Ok(id) && id@ == old(self).pools().len() && final(self).pools().len()
                    == old(self).pools().len() + 1 && final(self).pools().drop_last() == old(self).pools() && new_pool(
                    final(self).pools().last(),
                    token_a,
                    token_b,
                    pool_address,
                    fee_bps,
                    now,
                ) && final(self).pool_ids(normalized(token_a, token_b)) == old(self).pool_ids(
                    normalized(token_a, token_b),
                ).push(id@ as u64) && forall|p: TokenPair|
                    p != normalized(token_a, token_b) ==> #[trigger] final(self).pool_ids(p) == old(self).pool_ids(p)),
            },
            r is Err ==> final(self).pools() == old(self).pools() && forall|p: TokenPair| #[trigger]
                final(self).pool_ids(p) == old(self).pool_ids(p),
    {
        if !self.is_authorized_caller(&caller) {
            return Err(Error::Unauthorized);
        }
        match self.validate_pool_parameters(&token_a, &token_b, &pool_address, &fee_bps) {
            Ok(()) => {},
            Err(e) => return Err(e),
        }
        let id = self.pools.len() as u64;
        let (reserve_a, reserve_b) = verified_pool_reserves(&pool_address);
        let pool = SecurePool {
            token_a,
            token_b,
            reserve_a,
            reserve_b,
            fee_bps,
            pool_address,
            is_verified: false,
            created_at: now,
            last_updated: now,
        };
        let ghost before = self.pools@;
        self.pools.push(pool);
        self.pair_to_pools.file(TokenPair::new(token_a, token_b), id);
        proof {
            assert(self.pools@.drop_last() =~= before);
        }
        Ok(U256::from_u64(id))
    }

    /// Marks pool `pool_id` verified; only a pool validator may.
    pub fn verify_pool(&mut self, caller: Address, pool_id: U256) -> (r: Result<(), Error>)
        requires
            old(self).wf(),
        ensures
            final(self).wf(),
            final(self).security() == old(self).security(),
            final(self).limits() == old(self).limits(),
            final(self).owner_spec() == old(self).owner_spec(),
            forall|p: TokenPair| #[trigger] final(self).pool_ids(p) == old(self).pool_ids(p),
            !old(self).may_verify_pools(caller) ==> r == Err::<(), Error>(Error::Unauthorized),
            old(self).may_verify_pools(caller) && pool_id@ >= old(self).pools().len() ==> r == Err::<
                (),
                Error,
            >(Error::PoolNotFound),
            r is Err ==> final(self).pools() == old(self).pools(),
            old(self).may_verify_pools(caller) && pool_id@ < old(self).pools().len() ==> r is Ok,
            r is Ok ==> old(self).may_verify_pools(caller) && pool_id@ < old(self).pools().len()
                && final(self).pools() == old(self).pools().update(
                pool_id@ as int,
                SecurePool { is_verified: true, ..old(self).pools()[pool_id@ as int] },
            ),
    {
        let allowed = match self.pool_validators.get(&caller) {
            Some(a) => a,
            None => false,
        };
        if !allowed {
            return Err(Error::Unauthorized);
        }
        let count = self.pools.len();
        if !pool_id.lt(&U256::from_u64(count as u64)) {
            return Err(Error::PoolNotFound);
        }
        let id = pool_id.low_u64() as usize;
        let mut pool = self.pools[id];
        pool.is_verified = true;
        self.pools.set(id, pool);
        Ok(())
    }

    /// Halts the router; only the owner or the emergency admin may.
    pub fn emergency_pause(&mut self, caller: Address) -> (r: Result<(), Error>)
        requires
            old(self).wf(),
        ensures
            final(self).wf(),
            final(self).limits() == old(self).limits(),
            final(self).owner_spec() == old(self).owner_spec(),
            final(self).pools() == old(self).pools(),
            forall|p: TokenPair| #[trigger] final(self).pool_ids(p) == old(self).pool_ids(p),
            (caller == old(self).owner_spec() || caller == old(self).emergency_admin_spec()) ==> r is Ok && final(self).security() == tripped(old(self).security()),
            !(caller == old(self).owner_spec() || caller == old(self).emergency_admin_spec()) ==> r == Err::<
                (),
                Error,
            >(Error::Unauthorized) && final(self).security() == old(self).security(),
    {
        if caller != self.owner && caller != self.emergency_admin {
            return Err(Error::Unauthorized);
        }
        self.paused = true;
        Ok(())
    }

    /// Grants or revokes the pool-validator role; only the owner may.
    pub fn set_pool_validator(&mut self, caller: Address, validator: Address, allowed: bool) -> (r:
        Result<(), Error>)
        requires
            old(self).wf(),
        ensures
            final(self).wf(),
            final(self).security() == old(self).security(),
            final(self).limits() == old(self).limits(),
            final(self).owner_spec() == old(self).owner_spec(),
            final(self).pools() == old(self).pools(),
            forall|p: TokenPair| #[trigger] final(self).pool_ids(p) == old(self).pool_ids(p),
            caller != old(self).owner_spec() ==> r == Err::<(), Error>(Error::Unauthorized),
            caller == old(self).owner_spec() ==> r is Ok && final(self).may_verify_pools(validator)
                == allowed,
    {
        if caller != self.owner {
            return Err(Error::Unauthorized);
        }
        self.pool_validators.insert(validator, allowed);
        Ok(())
    }

    /// Whether the router is halted.
    pub fn is_paused(&self) -> (r: bool)
        ensures
            r == self.security().paused,
    {
        self.paused
    }

    /// The next nonce expected from `user`.
    pub fn nonce_of(&self, user: Address) -> (r: U256)
        requires
            self.wf(),
        ensures
            r@ == self.security().nonce(user),
    {
        self.expected_nonce(&user)
    }

    /// The volume `user` traded in the current window.
    pub fn daily_volume_of(&self, user: Address) -> (r: U256)
        requires
            self.wf(),
        ensures
            r@ == self.security().volume(user),
    {
        match self.daily_volume.get(&user) {
            Some(v) => v,
            None => U256::zero(),
        }
    }

    /// The volume traded through the router since the breaker was last cleared.
    pub fn total_volume_24h(&self) -> (r: U256)
        ensures
            r@ == self.security().total_volume_24h,
    {
        self.total_volume_24h
    }

    /// Pool `pool_id`, if there is one.
    pub fn get_pool(&self, pool_id: U256) -> (r: Option<SecurePool>)
        ensures
            pool_id@ < self.pools().len() ==> r == Some(self.pools()[pool_id@ as int]),
            pool_id@ >= self.pools().len() ==> r is None,
    {
        if !pool_id.lt(&U256::from_u64(self.pools.len() as u64)) {
            return None;
        }
        Some(self.pools[pool_id.low_u64() as usize])
    }
}

/// A successful execution moves the user's nonce up by exactly one, so the
/// same intent submitted again fails: at the same moment with `InvalidNonce`.
pub proof fn lemma_nonce_replay(
    sec: SecurityView,
    limits: Limits,
    caller: Address,
    now: nat,
    intent: ValidatedIntent,
    later: nat,
)
    requires
        pipeline_error(sec, limits, caller, now, intent) is None,
    ensures
        admitted(sec, limits, now, intent).nonce(intent.user) == sec.nonce(intent.user) + 1,
        pipeline_error(admitted(sec, limits, now, intent), limits, caller, later, intent) is Some,
        pipeline_error(admitted(sec, limits, now, intent), limits, caller, now, intent) == Some(
            Error::InvalidNonce,
        ),
{
}

/// An admitted intent adds its amount to its user's window, after emptying the
/// window first exactly when it had run out; no other user's counters move.
pub proof fn lemma_volume_window(
    sec: SecurityView,
    limits: Limits,
    caller: Address,
    now: nat,
    intent: ValidatedIntent,
    other: Address,
)
    requires
        pipeline_error(sec, limits, caller, now, intent) is None,
    ensures
        admitted(sec, limits, now, intent).volume(intent.user) == (if window_expired(
            sec,
            limits,
            intent.user,
            now,
        ) {
            0
        } else {
            sec.volume(intent.user)
        }) + intent.amount_in@,
        admitted(sec, limits, now, intent).reset_at(intent.user, limits) == (if window_expired(
            sec,
            limits,
            intent.user,
            now,
        ) {
            now
        } else {
            sec.reset_at(intent.user, limits)
        }),
        other != intent.user ==> admitted(sec, limits, now, intent).volume(other) == sec.volume(
            other,
        ) && admitted(sec, limits, now, intent).reset_at(other, limits) == sec.reset_at(
            other,
            limits,
        ),
{
}

/// A window that was emptied at `first` is not emptied again by a trade of the
/// same user within the next 86400 seconds: the two amounts add up.
pub proof fn lemma_volume_resets_once(
    sec: SecurityView,
    limits: Limits,
    caller: Address,
    first: nat,
    intent: ValidatedIntent,
    second: nat,
    next_intent: ValidatedIntent,
)
    requires
        pipeline_error(sec, limits, caller, first, intent) is None,
        window_expired(sec, limits, intent.user, first),
        next_intent.user == intent.user,
        first <= second <= first + VOLUME_WINDOW,
        pipeline_error(admitted(sec, limits, first, intent), limits, caller, second, next_intent)
            is None,
    ensures
        !window_expired(admitted(sec, limits, first, intent), limits, intent.user, second),
        admitted(admitted(sec, limits, first, intent), limits, second, next_intent).volume(
            intent.user,
        ) == intent.amount_in@ + next_intent.amount_in@,
{
}

/// Once the breaker trips the router is halted: every later call fails with
/// `Paused`, whoever makes it and whatever its nonce.
pub proof fn lemma_breaker_halts(
    sec: SecurityView,
    limits: Limits,
    caller: Address,
    now: nat,
    intent: ValidatedIntent,
    next_caller: Address,
    later: nat,
    next_intent: ValidatedIntent,
)
    requires
        pipeline_error(sec, limits, caller, now, intent) == Some(Error::CircuitBreakerTriggered),
    ensures
        sec.total_volume_24h + intent.amount_in@ > limits.circuit_breaker_threshold,
        pipeline_error(tripped(sec), limits, next_caller, later, next_intent) == Some(
            Error::Paused,
        ),
{
}

} // verus!
