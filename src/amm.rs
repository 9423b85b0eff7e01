//! Constant-product pricing: swap output and price impact from pool reserves.
use crate::error::Error;
use crate::uint::{word_modulus, U256};
use vstd::arithmetic::div_mod::{lemma_div_is_ordered, lemma_fundamental_div_mod, lemma_fundamental_div_mod_converse};
use vstd::prelude::*;

verus! {

/// Basis points in one whole.
pub const BPS_DENOMINATOR: u64 = 10000;

/// The largest pool fee, in basis points.
pub const MAX_FEE_BPS: u64 = 1000;

/// The ceiling of the price-impact estimate, in basis points.
pub const MAX_PRICE_IMPACT_BPS: u32 = 500;

/// The smallest reserve a pool may quote from in the security-hardened router (10^21).
pub const MIN_LIQUIDITY: u128 = 1_000_000_000_000_000_000_000;

/// A word result seen as a number.
pub open spec fn result_view(r: Result<U256, Error>) -> Result<nat, Error> {
    match r {
        Ok(v) => Ok(v@),
        Err(e) => Err(e),
    }
}

/// The input amount left after the pool fee, rounded down.
pub open spec fn fee_adjusted(amount_in: nat, fee_bps: nat) -> nat {
    amount_in * ((BPS_DENOMINATOR - fee_bps) as nat) / (BPS_DENOMINATOR as nat)
}

/// The constant-product output for a fee-adjusted input, rounded down.
pub open spec fn constant_product_out(reserve_in: nat, reserve_out: nat, adjusted_in: nat) -> nat {
    adjusted_in * reserve_out / (reserve_in + adjusted_in)
}

/// What `quote` returns: the output, or the first check that fails.
pub open spec fn quote_spec(reserve_in: nat, reserve_out: nat, amount_in: nat, fee_bps: nat) -> Result<
    nat,
    Error,
> {
    if reserve_in == 0 || reserve_out == 0 {
        Err(Error::InsufficientLiquidity)
    } else if fee_bps > MAX_FEE_BPS {
        Err(Error::FeeTooHigh)
    } else if amount_in * ((BPS_DENOMINATOR - fee_bps) as nat) >= word_modulus() {
        Err(Error::ArithmeticOverflow)
    } else {
        let adjusted = fee_adjusted(amount_in, fee_bps);
        if adjusted * reserve_out >= word_modulus() || reserve_in + adjusted >= word_modulus() {
            Err(Error::ArithmeticOverflow)
        } else {
            Ok(constant_product_out(reserve_in, reserve_out, adjusted))
        }
    }
}

/// The output of swapping `amount_in` against reserves `(reserve_in, reserve_out)`
/// in a pool charging `fee_bps`, with every operation checked.
pub fn quote(reserve_in: U256, reserve_out: U256, amount_in: U256, fee_bps: U256) -> (r: Result<
    U256,
    Error,
>)
    ensures
        result_view(r) == quote_spec(reserve_in@, reserve_out@, amount_in@, fee_bps@),
{
    if reserve_in.is_zero() || reserve_out.is_zero() {
        return Err(Error::InsufficientLiquidity);
    }
    if U256::from_u64(MAX_FEE_BPS).lt(&fee_bps) {
        return Err(Error::FeeTooHigh);
    }
    let denominator = U256::from_u64(BPS_DENOMINATOR);
    let multiplier = match denominator.checked_sub(fee_bps) {
        Some(m) => m,
        None => return Err(Error::ArithmeticOverflow),
    };
    let scaled = match amount_in.checked_mul(multiplier) {
        Some(s) => s,
        None => return Err(Error::ArithmeticOverflow),
    };
    let adjusted = match scaled.checked_div(denominator) {
        Some(a) => a,
        None => return Err(Error::DivisionByZero),
    };
    let numerator = match adjusted.checked_mul(reserve_out) {
        Some(n) => n,
        None => return Err(Error::ArithmeticOverflow),
    };
    let total_in = match reserve_in.checked_add(adjusted) {
        Some(d) => d,
        None => return Err(Error::ArithmeticOverflow),
    };
    if total_in.is_zero() {
        return Err(Error::DivisionByZero);
    }
    match numerator.checked_div(total_in) {
        Some(out) => Ok(out),
        None => Err(Error::DivisionByZero),
    }
}

/// What `secure_quote` returns: `quote_spec` behind the minimum-liquidity
/// floor; a reserve below the floor, zero included, is insufficient liquidity.
pub open spec fn secure_quote_spec(reserve_in: nat, reserve_out: nat, amount_in: nat, fee_bps: nat) -> Result<
    nat,
    Error,
> {
    if reserve_in < MIN_LIQUIDITY || reserve_out < MIN_LIQUIDITY {
        Err(Error::InsufficientLiquidity)
    } else {
        quote_spec(reserve_in, reserve_out, amount_in, fee_bps)
    }
}

/// `quote`, refusing pools whose reserves are below `MIN_LIQUIDITY`.
pub fn secure_quote(reserve_in: U256, reserve_out: U256, amount_in: U256, fee_bps: U256) -> (r: Result<
    U256,
    Error,
>)
    ensures
        result_view(r) == secure_quote_spec(reserve_in@, reserve_out@, amount_in@, fee_bps@),
{
    let floor = U256::from_u128(MIN_LIQUIDITY);
    if reserve_in.lt(&floor) || reserve_out.lt(&floor) {
        return Err(Error::InsufficientLiquidity);
    }
    quote(reserve_in, reserve_out, amount_in, fee_bps)
}

/// `quote` for a fee given as a `u32`. Every fee tier is priced by exact
/// division: no shift-based shortcut stands in for it.
pub fn optimized_constant_product(
    reserve_in: U256,
    reserve_out: U256,
    amount_in: U256,
    fee_bps: u32,
) -> (r: Result<U256, Error>)
    ensures
        result_view(r) == quote_spec(reserve_in@, reserve_out@, amount_in@, fee_bps as nat),
{
    quote(reserve_in, reserve_out, amount_in, U256::from_u64(fee_bps as u64))
}

/// The price-impact estimate: `amount_in * 10000 / reserve_in`, capped at
/// `MAX_PRICE_IMPACT_BPS`, and the cap itself for an empty reserve.
pub open spec fn price_impact_spec(reserve_in: nat, amount_in: nat) -> nat {
    if reserve_in == 0 {
        MAX_PRICE_IMPACT_BPS as nat
    } else {
        let ratio = amount_in * (BPS_DENOMINATOR as nat) / reserve_in;
        if ratio < MAX_PRICE_IMPACT_BPS {
            ratio
        } else {
            MAX_PRICE_IMPACT_BPS as nat
        }
    }
}

/// An upper-bound estimate of the price movement a trade causes, in basis
/// points; not an exact slippage figure.
pub fn price_impact_bps(reserve_in: U256, amount_in: U256) -> (r: u32)
    ensures
        r == price_impact_spec(reserve_in@, amount_in@),
{
    if reserve_in.is_zero() {
        return MAX_PRICE_IMPACT_BPS;
    }
    let cap = U256::from_u64(MAX_PRICE_IMPACT_BPS as u64);
    let bps = U256::from_u64(BPS_DENOMINATOR);
    if let Some(scaled) = amount_in.checked_mul(bps) {
        let ratio = match scaled.checked_div(reserve_in) {
            Some(q) => q,
            None => return MAX_PRICE_IMPACT_BPS,
        };
        if ratio.lt(&cap) {
            return ratio.low_u64() as u32;
        }
        return MAX_PRICE_IMPACT_BPS;
    }
    // amount_in * 10000 does not fit a word: count how many times the reserve
    // goes into it by adding amount_in 10000 times modulo the reserve.
    if !amount_in.lt(&reserve_in) {
        proof {
            assert(amount_in@ * 10000 >= reserve_in@ * 500) by (nonlinear_arith)
                requires
                    amount_in@ >= reserve_in@,
            ;
            lemma_ratio_reaches_cap(amount_in@ * 10000, reserve_in@);
        }
        return MAX_PRICE_IMPACT_BPS;
    }
    let mut carries: u32 = 0;
    let mut rem = U256::zero();
    let mut i: u64 = 0;
    while i < BPS_DENOMINATOR && carries < MAX_PRICE_IMPACT_BPS
        invariant
            i <= BPS_DENOMINATOR,
            carries <= MAX_PRICE_IMPACT_BPS,
            amount_in@ < reserve_in@,
            rem@ < reserve_in@,
            carries as nat * reserve_in@ + rem@ == i as nat * amount_in@,
        decreases BPS_DENOMINATOR - i,
    {
        let ghost c0 = carries as nat;
        let ghost r0 = rem@;
        let room = match reserve_in.checked_sub(rem) {
            Some(x) => x,
            None => return MAX_PRICE_IMPACT_BPS,
        };
        if amount_in.lt(&room) {
            rem = match rem.checked_add(amount_in) {
                Some(x) => x,
                None => return MAX_PRICE_IMPACT_BPS,
            };
        } else {
            rem = match amount_in.checked_sub(room) {
                Some(x) => x,
                None => return MAX_PRICE_IMPACT_BPS,
            };
            carries = carries + 1;
            assert((c0 + 1) * reserve_in@ == c0 * reserve_in@ + reserve_in@) by (nonlinear_arith);
        }
        assert((i + 1) as nat * amount_in@ == i as nat * amount_in@ + amount_in@) by (nonlinear_arith);
        i = i + 1;
    }
    proof {
        let n = amount_in@ * 10000;
        if carries == MAX_PRICE_IMPACT_BPS {
            assert(carries as nat * reserve_in@ <= n) by (nonlinear_arith)
                requires
                    carries as nat * reserve_in@ <= i as nat * amount_in@,
                    i <= 10000,
                    n == amount_in@ * 10000,
            ;
            assert(reserve_in@ * 500 == carries as nat * reserve_in@) by (nonlinear_arith)
                requires
                    carries == 500,
            ;
            lemma_ratio_reaches_cap(n, reserve_in@);
        } else {
            assert(i == 10000);
            assert(i as nat * amount_in@ == n) by (nonlinear_arith)
                requires
                    i == 10000,
                    n == amount_in@ * 10000,
            ;
            lemma_fundamental_div_mod_converse(n as int, reserve_in@ as int, carries as int, rem@ as int);
        }
    }
    carries
}

proof fn lemma_ratio_reaches_cap(n: nat, d: nat)
    requires
        d > 0,
        n >= d * 500,
    ensures
        n / d >= 500,
{
    lemma_div_is_ordered((d * 500) as int, n as int, d as int);
    assert((d * 500) / d == 500) by (nonlinear_arith)
        requires
            d > 0,
    ;
}

/// `x1 / d1 <= x2 / d2` wherever `x1 * d2 <= x2 * d1`.
proof fn lemma_div_cross(x1: nat, d1: nat, x2: nat, d2: nat)
    requires
        d1 > 0,
        d2 > 0,
        x1 * d2 <= x2 * d1,
    ensures
        x1 / d1 <= x2 / d2,
{
    let q = x1 / d1;
    lemma_fundamental_div_mod(x1 as int, d1 as int);
    assert(q * d2 <= x2) by (nonlinear_arith)
        requires
            q * d1 <= x1,
            x1 * d2 <= x2 * d1,
            d1 > 0,
            d2 > 0,
    ;
    lemma_div_is_ordered((q * d2) as int, x2 as int, d2 as int);
    assert((q * d2) / d2 == q) by (nonlinear_arith)
        requires
            d2 > 0,
    ;
}

/// A larger input never prices lower: where swapping `larger` succeeds, swapping
/// any `smaller` amount succeeds too and yields no more.
pub proof fn lemma_quote_monotone(
    reserve_in: nat,
    reserve_out: nat,
    smaller: nat,
    larger: nat,
    fee_bps: nat,
)
    requires
        smaller <= larger,
        quote_spec(reserve_in, reserve_out, larger, fee_bps) is Ok,
    ensures
        quote_spec(reserve_in, reserve_out, smaller, fee_bps) is Ok,
        quote_spec(reserve_in, reserve_out, smaller, fee_bps)->Ok_0 <= quote_spec(
            reserve_in,
            reserve_out,
            larger,
            fee_bps,
        )->Ok_0,
{
    let m = (BPS_DENOMINATOR - fee_bps) as nat;
    assert(smaller * m <= larger * m) by (nonlinear_arith)
        requires
            smaller <= larger,
    ;
    lemma_div_is_ordered((smaller * m) as int, (larger * m) as int, 10000);
    let a1 = fee_adjusted(smaller, fee_bps);
    let a2 = fee_adjusted(larger, fee_bps);
    assert(a1 * reserve_out <= a2 * reserve_out) by (nonlinear_arith)
        requires
            a1 <= a2,
    ;
    assert((a1 * reserve_out) * (reserve_in + a2) <= (a2 * reserve_out) * (reserve_in + a1))
        by (nonlinear_arith)
        requires
            a1 <= a2,
    ;
    lemma_div_cross(a1 * reserve_out, reserve_in + a1, a2 * reserve_out, reserve_in + a2);
}

/// The fee and the pool's curve both cost the trader: a successful swap of a
/// positive amount returns strictly less than the spot price gives,
/// `out * reserve_in < amount_in * reserve_out`.
pub proof fn lemma_quote_below_spot(reserve_in: nat, reserve_out: nat, amount_in: nat, fee_bps: nat)
    requires
        amount_in > 0,
        quote_spec(reserve_in, reserve_out, amount_in, fee_bps) is Ok,
    ensures
        quote_spec(reserve_in, reserve_out, amount_in, fee_bps)->Ok_0 * reserve_in < amount_in
            * reserve_out,
{
    let m = (BPS_DENOMINATOR - fee_bps) as nat;
    let a = fee_adjusted(amount_in, fee_bps);
    assert(amount_in * m <= amount_in * 10000) by (nonlinear_arith)
        requires
            m <= 10000,
    ;
    lemma_div_is_ordered((amount_in * m) as int, (amount_in * 10000) as int, 10000);
    assert((amount_in * 10000) / 10000 == amount_in) by (nonlinear_arith);
    let d = reserve_in + a;
    let o = constant_product_out(reserve_in, reserve_out, a);
    lemma_fundamental_div_mod((a * reserve_out) as int, d as int);
    assert(o * reserve_in < amount_in * reserve_out) by (nonlinear_arith)
        requires
            o * d <= a * reserve_out,
            d == reserve_in + a,
            a <= amount_in,
            amount_in > 0,
            reserve_out > 0,
    ;
}

} // verus!
