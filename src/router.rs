//! The basic router: one registry of pools, direct single-pool routes priced
//! by the constant-product formula, and no security pipeline beyond a pause,
//! a zero-amount check and a deadline.
use crate::address::Address;
use crate::amm::{quote, quote_spec, MAX_FEE_BPS};
use crate::error::Error;
use crate::index::IdIndex;
use crate::pair::{normalized, TokenPair};
use crate::uint::{word_modulus, U256};
use vstd::prelude::*;

pub use crate::packing::RouteStep;

verus! {

/// The reserve each side of a newly added pool starts with.
pub const INITIAL_RESERVE: u64 = 1_000_000;

/// A liquidity pool.
#[derive(Clone, Copy, Debug)]
pub struct Pool {
    pub token_a: Address,
    pub token_b: Address,
    pub reserve_a: U256,
    pub reserve_b: U256,
    /// The fee in basis points.
    pub fee: U256,
    pub pool_address: Address,
}

/// A user's request to swap.
#[derive(Clone, Copy, Debug)]
pub struct Intent {
    pub user: Address,
    pub token_in: Address,
    pub token_out: Address,
    pub amount_in: U256,
    pub min_amount_out: U256,
    pub deadline: U256,
}

/// The reserves of `pool` on the side `token_in` enters, and on the other side.
pub open spec fn pool_reserves_for(pool: Pool, token_in: Address) -> (nat, nat) {
    if token_in == pool.token_a {
        (pool.reserve_a@, pool.reserve_b@)
    } else {
        (pool.reserve_b@, pool.reserve_a@)
    }
}

/// The output pool `id` offers for `amount_in`, if it exists and prices the swap.
pub open spec fn pool_output(pools: Seq<Pool>, id: u64, token_in: Address, amount_in: nat) -> Option<nat> {
    if id >= pools.len() {
        None
    } else {
        let reserves = pool_reserves_for(pools[id as int], token_in);
        match quote_spec(reserves.0, reserves.1, amount_in, pools[id as int].fee@) {
            Ok(out) => Some(out),
            Err(_) => None,
        }
    }
}

/// The pool with the largest output among `ids`, the first one seen among equals.
pub open spec fn best_pool(pools: Seq<Pool>, ids: Seq<u64>, token_in: Address, amount_in: nat) -> Option<
    (u64, nat),
>
    decreases ids.len(),
{
    if ids.len() == 0 {
        None
    } else {
        let earlier = best_pool(pools, ids.drop_last(), token_in, amount_in);
        match pool_output(pools, ids.last(), token_in, amount_in) {
            Some(out) => if earlier is None || out > earlier->Some_0.1 {
                Some((ids.last(), out))
            } else {
                earlier
            },
            None => earlier,
        }
    }
}

/// The route the basic router picks among the pools `ids` of a pair.
pub open spec fn best_route_spec(pools: Seq<Pool>, ids: Seq<u64>, token_in: Address, amount_in: nat) -> Result<
    (u64, nat),
    Error,
> {
    if ids.len() == 0 {
        Err(Error::NoPoolForPair)
    } else {
        match best_pool(pools, ids, token_in, amount_in) {
            None => Err(Error::NoVerifiedPoolAvailable),
            Some(best) => Ok(best),
        }
    }
}

/// Why an intent is refused at `now` before routing, if it is.
pub open spec fn basic_intent_error(paused: bool, now: nat, intent: Intent) -> Option<Error> {
    if paused {
        Some(Error::Paused)
    } else if intent.amount_in@ == 0 {
        Some(Error::ZeroAmount)
    } else if intent.deadline@ <= now {
        Some(Error::TransactionExpired)
    } else {
        None
    }
}

/// What executing `intent` at `now` yields: `(pool id, output)`, or the first failure.
pub open spec fn basic_execution_spec(
    paused: bool,
    pools: Seq<Pool>,
    ids: Seq<u64>,
    now: nat,
    intent: Intent,
) -> Result<(u64, nat), Error> {
    match basic_intent_error(paused, now, intent) {
        Some(e) => Err(e),
        None => match best_route_spec(pools, ids, intent.token_in, intent.amount_in@) {
            Err(e) => Err(e),
            Ok(route) => {
                let reserves = pool_reserves_for(pools[route.0 as int], intent.token_in);
                if reserves.0 + intent.amount_in@ >= word_modulus() || route.1 > reserves.1 {
                    Err(Error::ArithmeticOverflow)
                } else if route.1 < intent.min_amount_out@ {
                    Err(Error::InsufficientOutput)
                } else {
                    Ok(route)
                }
            },
        },
    }
}

/// Why a pool with these parameters may not be added, if it may not.
pub open spec fn basic_pool_error(
    pools: Seq<Pool>,
    token_a: Address,
    token_b: Address,
    pool_address: Address,
    fee: nat,
) -> Option<Error> {
    if token_a@ == 0 || token_b@ == 0 || pool_address@ == 0 {
        Some(Error::InvalidAddress)
    } else if token_a == token_b {
        Some(Error::IdenticalTokens)
    } else if fee > MAX_FEE_BPS {
        Some(Error::FeeTooHigh)
    } else if exists|j: int| 0 <= j < pools.len() && (#[trigger] pools[j]).pool_address == pool_address {
        Some(Error::PoolAlreadyExists)
    } else {
        None
    }
}

proof fn lemma_best_pool_prices(pools: Seq<Pool>, ids: Seq<u64>, token_in: Address, amount_in: nat)
    ensures
        best_pool(pools, ids, token_in, amount_in) matches Some(b) ==> pool_output(
            pools,
            b.0,
            token_in,
            amount_in,
        ) == Some(b.1),
    decreases ids.len(),
{
    if ids.len() > 0 {
        lemma_best_pool_prices(pools, ids.drop_last(), token_in, amount_in);
    }
}

/// The reserves of `pool` on the side `token_in` enters, and on the other side.
fn oriented_reserves(pool: &Pool, token_in: &Address) -> (r: (U256, U256))
    ensures
        (r.0@, r.1@) == pool_reserves_for(*pool, *token_in),
{
    if *token_in == pool.token_a {
        (pool.reserve_a, pool.reserve_b)
    } else {
        (pool.reserve_b, pool.reserve_a)
    }
}

/// The output of swapping `amount_in` of `token_in` through `pool`.
pub fn calculate_swap_output(pool: &Pool, token_in: Address, amount_in: U256) -> (r: Result<U256, Error>)
    ensures
        crate::amm::result_view(r) == quote_spec(
            pool_reserves_for(*pool, token_in).0,
            pool_reserves_for(*pool, token_in).1,
            amount_in@,
            pool.fee@,
        ),
{
    let (reserve_in, reserve_out) = oriented_reserves(pool, &token_in);
    quote(reserve_in, reserve_out, amount_in, pool.fee)
}

/// The output of a route: that of its last step.
pub fn calculate_route_output(route: &Vec<RouteStep>) -> (r: Result<U256, Error>)
    ensures
        route@.len() == 0 ==> r == Err::<U256, Error>(Error::EmptyRoute),
        route@.len() > 0 ==> r == Ok::<U256, Error>(route@.last().amount_out),
{
    if route.len() == 0 {
        return Err(Error::EmptyRoute);
    }
    Ok(route[route.len() - 1].amount_out)
}

/// The reserves a pool at `pool_address` is taken to hold; live reserves are
/// not read, so every pool starts at `INITIAL_RESERVE` on both sides.
pub fn get_pool_reserves(pool_address: &Address) -> (r: (U256, U256))
    ensures
        r.0@ == INITIAL_RESERVE,
        r.1@ == INITIAL_RESERVE,
{
    (U256::from_u64(INITIAL_RESERVE), U256::from_u64(INITIAL_RESERVE))
}

/// The basic router and the state it owns.
pub struct AquaFlowRouter {
    pools: Vec<Pool>,
    pair_to_pools: IdIndex<TokenPair>,
    owner: Address,
    paused: bool,
    protocol_fee: U256,
    fee_recipient: Address,
}

impl AquaFlowRouter {
    /// The pools, indexed by id.
    pub closed spec fn pools(&self) -> Seq<Pool> {
        self.pools@
    }

    /// The ids of the pools of a pair, in the order they were added.
    pub closed spec fn pool_ids(&self, pair: TokenPair) -> Seq<u64> {
        self.pair_to_pools.ids(pair)
    }

    /// The owner.
    pub closed spec fn owner_spec(&self) -> Address {
        self.owner
    }

    /// Whether the router is halted.
    pub closed spec fn paused_spec(&self) -> bool {
        self.paused
    }

    /// A router owned by `owner`, charging a 0.3% protocol fee to `fee_recipient`.
    pub fn initialize(owner: Address, fee_recipient: Address) -> (r: AquaFlowRouter)
        ensures
            r.pools().len() == 0,
            r.owner_spec() == owner,
            !r.paused_spec(),
            forall|p: TokenPair| #[trigger] r.pool_ids(p) == Seq::<u64>::empty(),
    {
        AquaFlowRouter {
            pools: Vec::new(),
            pair_to_pools: IdIndex::new(),
            owner,
            paused: false,
            protocol_fee: U256::from_u64(30),
            fee_recipient,
        }
    }

    /// Refuses an intent when the router is paused, the amount is zero or the
    /// deadline is not in the future.
    fn validate_intent(&self, now: &U256, intent: &Intent) -> (r: Result<(), Error>)
        ensures
            match basic_intent_error(self.paused_spec(), now@, *intent) {
                Some(e) => r == Err::<(), Error>(e),
                None => r is Ok,
            },
    {
        if self.paused {
            return Err(Error::Paused);
        }
        if intent.amount_in.is_zero() {
            return Err(Error::ZeroAmount);
        }
        if !now.lt(&intent.deadline) {
            return Err(Error::TransactionExpired);
        }
        Ok(())
    }

    /// The direct route through the pool of the pair that offers the largest
    /// output; pools that cannot price the swap are skipped.
    pub fn find_best_route(&self, token_in: Address, token_out: Address, amount_in: U256) -> (r: Result<
        Vec<RouteStep>,
        Error,
    >)
        ensures
            match best_route_spec(
                self.pools(),
                self.pool_ids(normalized(token_in, token_out)),
                token_in,
                amount_in@,
            ) {
                Err(e) => r == Err::<Vec<RouteStep>, Error>(e),
                Ok(best) => (r matches Ok(steps) && steps@.len() == 1 && steps@[0].pool_id@ == best.0
                    && steps@[0].token_in == token_in && steps@[0].token_out == token_out
                    && steps@[0].amount_in == amount_in && steps@[0].amount_out@ == best.1),
            },
    {
        let ids = self.pair_to_pools.lookup(&TokenPair::new(token_in, token_out));
        if ids.len() == 0 {
            return Err(Error::NoPoolForPair);
        }
        let mut best: Option<(u64, U256)> = None;
        let mut i: usize = 0;
        while i < ids.len()
            invariant
                i <= ids@.len(),
                ids@ == self.pool_ids(normalized(token_in, token_out)),
                crate::secure_router::best_view(best) == best_pool(
                    self.pools(),
                    ids@.subrange(0, i as int),
                    token_in,
                    amount_in@,
                ),
            decreases ids@.len() - i,
        {
            let id = ids[i];
            proof {
                assert(ids@.subrange(0, i + 1).drop_last() =~= ids@.subrange(0, i as int));
            }
            if id < self.pools.len() as u64 {
                match calculate_swap_output(&self.pools[id as usize], token_in, amount_in) {
                    Ok(out) => {
                        let better = match best {
                            None => true,
                            Some((_, seen)) => seen.lt(&out),
                        };
                        if better {
                            best = Some((id, out));
                        }
                    },
                    Err(_) => {},
                }
            }
            i = i + 1;
        }
        proof {
            assert(ids@.subrange(0, ids@.len() as int) =~= ids@);
        }
        match best {
            Some((id, out)) => Ok(
                vec![RouteStep {
                    pool_id: U256::from_u64(id),
                    token_in,
                    token_out,
                    amount_in,
                    amount_out: out,
                }],
            ),
            None => Err(Error::NoVerifiedPoolAvailable),
        }
    }

    /// The output of swapping `amount_in` of `token_in` into `token_out`,
    /// with no state changed.
    pub fn get_quote(&self, token_in: Address, token_out: Address, amount_in: U256) -> (r: Result<
        U256,
        Error,
    >)
        ensures
            match best_route_spec(
                self.pools(),
                self.pool_ids(normalized(token_in, token_out)),
                token_in,
                amount_in@,
            ) {
                Err(e) => r == Err::<U256, Error>(e),
                Ok(best) => (r matches Ok(out) && out@ == best.1),
            },
    {
        let route = match self.find_best_route(token_in, token_out, amount_in) {
            Ok(route) => route,
            Err(e) => return Err(e),
        };
        calculate_route_output(&route)
    }

    /// Registers a pool for `(token_a, token_b)` with the reserves
    /// `get_pool_reserves` reports; only the owner may. Returns its id.
    pub fn add_pool(
        &mut self,
        caller: Address,
        token_a: Address,
        token_b: Address,
        pool_address: Address,
        fee: U256,
    ) -> (r: Result<U256, Error>)
        ensures
            final(self).owner_spec() == old(self).owner_spec(),
            final(self).paused_spec() == old(self).paused_spec(),
            caller != old(self).owner_spec() ==> r == Err::<U256, Error>(Error::Unauthorized),
            caller == old(self).owner_spec() ==> match basic_pool_error(
                old(self).pools(),
                token_a,
                token_b,
                pool_address,
                fee@,
            ) {
                Some(e) => r == Err::<U256, Error>(e),
                None => (r matches Ok(id) && id@ == old(self).pools().len() && final(self).pools().len()
                    == old(self).pools().len() + 1 && final(self).pools().drop_last() == old(self).pools()
                    && final(self).pools().last().token_a == token_a && final(self).pools().last().token_b
                    == token_b && final(self).pools().last().pool_address == pool_address && final(self).pools().last().fee == fee && final(self).pools().last().reserve_a@
                    == INITIAL_RESERVE && final(self).pools().last().reserve_b@ == INITIAL_RESERVE
                    && final(self).pool_ids(normalized(token_a, token_b)) == old(self).pool_ids(
                    normalized(token_a, token_b),
                ).push(id@ as u64) && forall|p: TokenPair|
                    p != normalized(token_a, token_b) ==> #[trigger] final(self).pool_ids(p) == old(
                        self).pool_ids(p)),
            },
            r is Err ==> final(self).pools() == old(self).pools() && forall|p: TokenPair| #[trigger]
                final(self).pool_ids(p) == old(self).pool_ids(p),
    {
        if caller != self.owner {
            return Err(Error::Unauthorized);
        }
        if token_a.is_zero() || token_b.is_zero() || pool_address.is_zero() {
            return Err(Error::InvalidAddress);
        }
        if token_a == token_b {
            return Err(Error::IdenticalTokens);
        }
        if U256::from_u64(MAX_FEE_BPS).lt(&fee) {
            return Err(Error::FeeTooHigh);
        }
        let mut i: usize = 0;
        while i < self.pools.len()
            invariant
                i <= self.pools@.len(),
                caller == self.owner,
                !(token_a@ == 0 || token_b@ == 0 || pool_address@ == 0),
                token_a != token_b,
                fee@ <= MAX_FEE_BPS,
                forall|j: int| 0 <= j < i ==> (#[trigger] self.pools@[j]).pool_address != pool_address,
            decreases self.pools@.len() - i,
        {
            if self.pools[i].pool_address == pool_address {
                assert(self.pools()[i as int].pool_address == pool_address);
                return Err(Error::PoolAlreadyExists);
            }
            i = i + 1;
        }
        let id = self.pools.len() as u64;
        let (reserve_a, reserve_b) = get_pool_reserves(&pool_address);
        let ghost before = self.pools@;
        self.pools.push(Pool { token_a, token_b, reserve_a, reserve_b, fee, pool_address });
        self.pair_to_pools.file(TokenPair::new(token_a, token_b), id);
        assert(self.pools@.drop_last() =~= before);
        Ok(U256::from_u64(id))
    }

    /// The pool of `step` with the swap settled; nothing is committed.
    fn execute_route(&self, step: &RouteStep) -> (r: Result<Pool, Error>)
        requires
            step.pool_id@ < self.pools().len(),
        ensures
            ({
                let pool = self.pools()[step.pool_id@ as int];
                let reserves = pool_reserves_for(pool, step.token_in);
                if reserves.0 + step.amount_in@ >= word_modulus() || step.amount_out@ > reserves.1 {
                    r == Err::<Pool, Error>(Error::ArithmeticOverflow)
                } else {
                    r matches Ok(p) && pool_reserves_for(p, step.token_in) == (
                        reserves.0 + step.amount_in@,
                        (reserves.1 - step.amount_out@) as nat,
                    ) && p.token_a == pool.token_a && p.token_b == pool.token_b && p.fee == pool.fee
                        && p.pool_address == pool.pool_address
                }
            }),
    {
        let count = self.pools.len();
        proof {
            assert(count < crate::uint::limb_base());
        }
        let mut pool = self.pools[step.pool_id.low_u64() as usize];
        if step.token_in == pool.token_a {
            pool.reserve_a = match pool.reserve_a.checked_add(step.amount_in) {
                Some(x) => x,
                None => return Err(Error::ArithmeticOverflow),
            };
            pool.reserve_b = match pool.reserve_b.checked_sub(step.amount_out) {
                Some(x) => x,
                None => return Err(Error::ArithmeticOverflow),
            };
        } else {
            pool.reserve_b = match pool.reserve_b.checked_add(step.amount_in) {
                Some(x) => x,
                None => return Err(Error::ArithmeticOverflow),
            };
            pool.reserve_a = match pool.reserve_a.checked_sub(step.amount_out) {
                Some(x) => x,
                None => return Err(Error::ArithmeticOverflow),
            };
        }
        Ok(pool)
    }

    /// Executes `intent` at `now` through the best direct route, moving the
    /// pool's reserves; fails with `InsufficientOutput` below the intent's
    /// minimum. A failed call changes nothing.
    pub fn execute_intent(&mut self, now: U256, intent: Intent) -> (r: Result<U256, Error>)
        ensures
            final(self).owner_spec() == old(self).owner_spec(),
            final(self).paused_spec() == old(self).paused_spec(),
            forall|p: TokenPair| #[trigger] final(self).pool_ids(p) == old(self).pool_ids(p),
            match basic_execution_spec(
                old(self).paused_spec(),
                old(self).pools(),
                old(self).pool_ids(normalized(intent.token_in, intent.token_out)),
                now@,
                intent,
            ) {
                Err(e) => r == Err::<U256, Error>(e) && final(self).pools() == old(self).pools(),
                Ok(route) => (r matches Ok(out) && out@ == route.1 && final(self).pools().len()
                    == old(self).pools().len() && pool_reserves_for(
                    final(self).pools()[route.0 as int],
                    intent.token_in,
                ) == (
                    pool_reserves_for(old(self).pools()[route.0 as int], intent.token_in).0
                        + intent.amount_in@,
                    (pool_reserves_for(old(self).pools()[route.0 as int], intent.token_in).1
                        - route.1) as nat,
                ) && final(self).pools()[route.0 as int].token_a == old(self).pools()[route.0 as int].token_a
                    && final(self).pools()[route.0 as int].token_b == old(self).pools()[route.0 as int].token_b
                    && final(self).pools()[route.0 as int].fee == old(self).pools()[route.0 as int].fee
                    && final(self).pools()[route.0 as int].pool_address == old(self).pools()[route.0 as int].pool_address
                    && forall|j: int|
                    0 <= j < old(self).pools().len() && j != route.0 ==> #[trigger] final(self).pools()[j] == old(self).pools()[j]),
            },
    {
        match self.validate_intent(&now, &intent) {
            Ok(()) => {},
            Err(e) => return Err(e),
        }
        let route = match self.find_best_route(intent.token_in, intent.token_out, intent.amount_in) {
            Ok(route) => route,
            Err(e) => return Err(e),
        };
        proof {
            lemma_best_pool_prices(
                self.pools(),
                self.pool_ids(normalized(intent.token_in, intent.token_out)),
                intent.token_in,
                intent.amount_in@,
            );
        }
        let step = route[0];
        let pool = match self.execute_route(&step) {
            Ok(p) => p,
            Err(e) => return Err(e),
        };
        if step.amount_out.lt(&intent.min_amount_out) {
            return Err(Error::InsufficientOutput);
        }
        let count = self.pools.len();
        proof {
            assert(count < crate::uint::limb_base());
        }
        self.pools.set(step.pool_id.low_u64() as usize, pool);
        Ok(step.amount_out)
    }
}

} // verus!
