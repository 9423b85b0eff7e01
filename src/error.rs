//! The failures that the router reports.
use vstd::prelude::*;

verus! {

/// Why an operation was refused; each kind is reported on its own.
#[derive(Clone, Copy, Debug, PartialEq, Eq, Structural)]
pub enum Error {
    /// The router or registry has been halted.
    Paused,
    /// The caller may not perform this operation.
    Unauthorized,
    /// The intent's user is not the caller.
    UserMismatch,
    /// A token or pool address is zero.
    InvalidAddress,
    /// Both sides of a pair are the same token.
    IdenticalTokens,
    /// The amount is zero.
    ZeroAmount,
    /// The amount is below the smallest trade.
    AmountBelowMinimum,
    /// The amount is above the largest trade.
    AmountExceedsMaximum,
    /// The deadline is not in the future.
    TransactionExpired,
    /// The deadline leaves too short an execution window.
    DeadlineTooSoon,
    /// The slippage bound exceeds the largest allowed.
    SlippageTooHigh,
    /// The nonce is not the user's next expected nonce.
    InvalidNonce,
    /// The user's volume for the day would exceed the daily limit.
    DailyVolumeExceeded,
    /// The total volume would exceed the breaker threshold; the router is now paused.
    CircuitBreakerTriggered,
    /// A pool fee exceeds the largest allowed.
    FeeTooHigh,
    /// A reserve is zero, or below the minimum-liquidity floor where one applies.
    InsufficientLiquidity,
    /// A checked operation overflowed or underflowed.
    ArithmeticOverflow,
    /// A checked division had a zero divisor.
    DivisionByZero,
    /// No pool is registered for the pair.
    NoPoolForPair,
    /// No pool of the pair survived filtering and pricing.
    NoVerifiedPoolAvailable,
    /// The route's price impact exceeds the slippage bound.
    PriceImpactTooHigh,
    /// The output is below the intent's minimum.
    InsufficientOutput,
    /// The route holds no step.
    EmptyRoute,
    /// A route step comes from an unverified pool.
    UnverifiedRouteStep,
    /// The route already holds as many steps as it can.
    RouteTooLong,
    /// A pool with this address is already registered.
    PoolAlreadyExists,
    /// No pool has this id.
    PoolNotFound,
    /// The pool was refreshed too recently.
    UpdateTooFrequent,
    /// An initialization parameter is invalid.
    InvalidParameters,
    /// The intent's source chain is not this chain.
    InvalidSourceChain,
    /// The deadline does not cover the chain's finality buffer.
    DeadlineTooShortForFinality,
    /// Disputes are not enabled on this chain.
    DisputesDisabled,
}

} // verus!
