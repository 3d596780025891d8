//! Typed failure reasons.  Every operation either completes and commits all
//! of its state changes, or returns one of these and changes nothing.

use vstd::prelude::*;

verus! {

/// Rejection of the coins attached to a call.
#[derive(Clone, Copy, Debug, PartialEq, Eq, Structural)]
pub enum PaymentFailure {
    /// No coin, or a single coin of zero amount, was attached.
    NoFunds,
    /// More than one denomination was attached.
    MultipleDenoms,
    /// A single nonzero coin was attached, but of the wrong denomination.
    MissingDenom,
    /// A coin of an unsupported denomination was attached.
    ExtraDenom,
    /// Coins were attached to a call that accepts none.
    NonPayable,
}

/// Failure of a single call; the call leaves the ledger untouched.
#[derive(Clone, Copy, Debug, PartialEq, Eq, Structural)]
pub enum ContractError {
    /// A checked arithmetic step overflowed or underflowed.
    Overflow,
    /// A ratio against a zero total was requested where no fallback applies.
    DivideByZero,
    /// The attached payment was rejected.
    Payment(PaymentFailure),
    /// The caller is not the permitted principal for this operation.
    Unauthorized,
    /// No claims can be released currently.
    NothingToClaim,
    /// The caller is not a liquidity provider, so there is nothing to remove.
    NothingToRemove,
    /// Not enough outstanding shares to satisfy a conversion request.
    InsufficientLiquidity,
    /// The deposit would mint zero shares.
    NothingToAdd,
    /// The conversion would pay out zero base asset.
    GainNothingWhenSwap,
    /// The withdrawal would pay out zero base asset.
    GainNothingWhenRemove,
    /// The queue ran empty while a conversion request was still unfilled;
    /// this marks a broken liquidity invariant rather than a user mistake.
    QueueExhausted,
}

/// The state-dependent no-op failures: a call that asked for work where the
/// ledger holds none for it.
pub open spec fn is_state_error(e: ContractError) -> bool {
    ||| e == ContractError::NothingToClaim
    ||| e == ContractError::NothingToRemove
    ||| e == ContractError::NothingToAdd
    ||| e == ContractError::GainNothingWhenSwap
    ||| e == ContractError::GainNothingWhenRemove
}

} // verus!
