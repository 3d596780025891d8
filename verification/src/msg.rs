//! Inbound operations, outbound transfer instructions, and query
//! responses, all as plain values.  Account identities arrive already
//! validated by the host's identity validator, as small integer ids.

use vstd::prelude::*;
use crate::queue::NodeWithId;

verus! {

/// One state-changing operation per call.
#[derive(Clone, Copy, Debug, PartialEq, Eq, Structural)]
pub enum ExecuteMsg {
    /// Deposit the attached payment into the pool.
    Add,
    /// Withdraw the caller's whole position.
    Remove,
    /// Pay out the caller's accumulated claims and rewards.
    Claim,
    /// Owner-only change of the conversion fee, in basis points.
    SetSwapFee { swap_fee: u128 },
    /// Notification of an incoming target-asset transfer: convert `amount`
    /// on behalf of `sender` (trusted only to credit that account).
    Receive { sender: u64, amount: u128 },
}

/// Read-only queries.
#[derive(Clone, Copy, Debug, PartialEq, Eq, Structural)]
pub enum QueryMsg {
    ClaimableOf { address: u64 },
    ConfigInfo,
    StatusInfo,
    OrderBook,
    OrderInfoOf { address: u64 },
}

/// An outbound transfer instruction for the host to carry out.
#[derive(Clone, Copy, Debug, PartialEq, Eq, Structural)]
pub enum TransferMsg {
    /// Send `amount` of the base asset (the bond denomination) to `to`.
    Native { to: u64, amount: u128 },
    /// Send `amount` of the target asset via the token contract to `to`.
    Token { to: u64, amount: u128 },
}

/// Claimable balance of one address.
#[derive(Clone, Copy, Debug, PartialEq, Eq, Structural)]
pub struct BalanceResponse {
    pub balance: u128,
}

/// Snapshot of the configuration.
#[derive(Clone, Debug)]
pub struct ConfigResponse {
    pub owner: u64,
    pub bond_denom: String,
    pub liquid_token_addr: u64,
    pub staking_manager_addr: u64,
    pub swap_fee: u128,
}

/// Pool status: supply, claims, queried bank balance and current ratio.
#[derive(Clone, Copy, Debug, PartialEq, Eq, Structural)]
pub struct StatusResponse {
    pub issued: u128,
    pub claims: u128,
    pub balance: u128,
    /// Atomics of the base-per-share ratio.
    pub ratio: u128,
}

/// One owner's queue position.
#[derive(Clone, Copy, Debug, PartialEq, Eq, Structural)]
pub struct OrderInfoOfResponse {
    /// Shares held by the owner's active node.
    pub issued: u128,
    /// Their current base-asset equivalent.
    pub native: u128,
    /// Insertion height of the node.
    pub height: u64,
    /// Id of the node, 0 for none.
    pub node_id: u64,
}

/// Queue header and a bounded snapshot of pending nodes.
#[derive(Clone, Debug)]
pub struct OrderBookResponse {
    pub head_id: u64,
    pub tail_id: u64,
    pub length: u64,
    pub queue: Vec<NodeWithId>,
}

/// Answer to one [`QueryMsg`].
#[derive(Clone, Debug)]
pub enum QueryAnswer {
    Claimable(BalanceResponse),
    Config(ConfigResponse),
    Status(StatusResponse),
    Book(OrderBookResponse),
    OrderInfo(OrderInfoOfResponse),
}

} // verus!
