//! Data model of the collaborating staking manager: the contract that
//! holds the staked pool and answers the ratio query.  Only its published
//! types are modelled here (as plain values); its logic runs elsewhere.

use vstd::prelude::*;

verus! {

/// Delegation preference for one validator of the whitelist.
#[derive(Clone, Debug)]
pub struct DelegationPercentage {
    pub validator: String,
    /// Share of delegations routed to this validator, in percent.
    pub percentage: u16,
}

/// A deadline after which the manager may unstake.
#[derive(Clone, Copy, Debug, PartialEq, Eq, Structural)]
pub enum Expiration {
    /// At a block height.
    AtHeight(u64),
    /// At a timestamp (nanoseconds).
    AtTime(u64),
    /// Never expires.
    Never,
}

/// Static configuration of the staking manager.
#[derive(Clone, Debug)]
pub struct ConfigInfo {
    /// Admin to change config.
    pub owner: u64,
    /// The denomination that can be staked (and the only one accepted for
    /// payments).
    pub bond_denom: String,
    /// Liquid token account.
    pub liquid_token_addr: u64,
    /// Swap contract account.
    pub swap_contract_addr: u64,
    /// Percentage of staking rewards taken as rewards for liquidity
    /// providers.
    pub lp_rewards_percentage: u16,
    /// Number of blocks between contract unstaking requests.
    pub unstaking_time: u64,
    /// The contract only unstakes after this.
    pub unstaking_period: Expiration,
    /// Delegation preferences for a whitelist of validators.
    pub delegations: Option<Vec<DelegationPercentage>>,
}

/// Supply tracked by the staking manager.
#[derive(Clone, Copy, Debug, PartialEq, Eq, Structural, Default)]
pub struct Supply {
    /// Total native tokens that liquid token holders can withdraw.
    pub native: u128,
    /// Total native tokens in the unstaking queue.
    pub unstakings: u128,
    /// Tokens reserved for paying back those who unbonded.
    pub claims: u128,
}

/// Failure of a staking-manager call.
#[derive(Clone, Debug)]
pub enum ContractError {
    /// A checked arithmetic step overflowed or underflowed.
    Overflow,
    /// The attached payment was rejected.
    Payment(crate::error::PaymentFailure),
    /// The caller is not the permitted principal.
    Unauthorized,
    /// Two bonds carry different denominations.
    DifferentBondDenom { denom1: String, denom2: String },
    /// No claims can be released currently.
    NothingToClaim,
    /// Staking would mint no liquid token.
    GainNothingWhenStake,
    /// Unstaking would return no native token.
    GainNothingWhenUnstake,
}

} // verus!
