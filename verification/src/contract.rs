//! The operations: liquidity provision (add and remove), claim settlement,
//! the matching engine, fee changes, and the read-only queries.
//!
//! Every operation takes the ledger [`State`] by mutable reference together
//! with plain inputs that the host has already validated or queried
//! (account ids, coins, the external conversion ratio, block height, bank
//! balance).  On any error the ledger is left exactly as it was.

use vstd::prelude::*;
use crate::arith::{
    mul_dec, mul_dec_spec, mul_ratio, mul_ratio_spec, ratio_spec, DECIMAL_ONE, dec_from_ratio,
};
use crate::coins::{must_pay_amount, payment_ok, Coin};
use crate::error::{ContractError, PaymentFailure};
use crate::msg::{
    BalanceResponse, ConfigResponse, ExecuteMsg, OrderBookResponse, OrderInfoOfResponse,
    QueryAnswer, QueryMsg, StatusResponse, TransferMsg,
};
use crate::queue::{contains_id, idx_of, NodeWithId, OrderQueue};
use crate::state::{Accounts, ActiveIds, ConfigInfo, State, Supply};

verus! {

/// Fee charged on conversions at creation time, in basis points.
pub const DEFAULT_SWAP_FEE: u128 = 100;

/// Denominator of the fee rate: the fee is `amount * swap_fee / 10000`.
pub const FEE_SCALE: u128 = 10000;

/// A value representable in the unsigned 128-bit amounts of the ledger.
pub open spec fn fits(v: int) -> bool {
    0 <= v <= u128::MAX
}

/// The ratio atomics used for minting and payouts, with the fallback of
/// one for an empty pool.
pub fn get_ratio(numerator: u128, denominator: u128) -> (r: Option<u128>)
    ensures
        match r {
            Some(v) => v == ratio_spec(numerator as int, denominator as int) && fits(
                ratio_spec(numerator as int, denominator as int),
            ),
            None => !fits(ratio_spec(numerator as int, denominator as int)),
        },
{
    if denominator == 0 {
        Some(DECIMAL_ONE)
    } else {
        dec_from_ratio(numerator, denominator)
    }
}

/// Values produced by a successful deposit.
pub struct AddVals {
    /// Orphaned balance returned to the configured owner, 0 when none.
    pub rescue_amount: int,
    /// Shares minted for this payment.
    pub minted: int,
    /// Id of the owner's previous node merged into the new one, 0 for none.
    pub merged_from: u64,
    /// Value of the appended node.
    pub value2: int,
    /// Principal of the appended node.
    pub ld2: int,
    /// Issued shares afterwards.
    pub issued2: int,
    /// Pool balance afterwards.
    pub pool2: int,
}

/// Outcome of a deposit of `pay` (a positive amount of the accepted
/// denomination) by `owner`, on ledger `s`.
pub open spec fn add_spec(s: State, owner: u64, pay: int) -> Result<AddVals, ContractError> {
    let issued = s.supply.issued as int;
    let rescue = s.pool > 0 && issued == 0;
    let rescue_amount: int = if rescue {
        s.pool as int
    } else {
        0
    };
    let pool1: int = if rescue {
        0
    } else {
        s.pool as int
    };
    let rat = ratio_spec(issued, pool1);
    if !fits(rat) {
        Err(ContractError::Overflow)
    } else {
        let minted = mul_dec_spec(pay, rat);
        if !fits(minted) {
            Err(ContractError::Overflow)
        } else if minted == 0 {
            Err(ContractError::NothingToAdd)
        } else if !fits(issued + minted) {
            Err(ContractError::Overflow)
        } else if !fits(pool1 + pay) {
            Err(ContractError::Overflow)
        } else {
            let act = s.active@[owner];
            if act != 0 {
                let nd = s.queue@[idx_of(s.queue@, act)];
                if !fits(minted + nd.value) {
                    Err(ContractError::Overflow)
                } else if !fits(pay + nd.last_deposit) {
                    Err(ContractError::Overflow)
                } else {
                    Ok(
                        AddVals {
                            rescue_amount,
                            minted,
                            merged_from: act,
                            value2: minted + nd.value,
                            ld2: pay + nd.last_deposit,
                            issued2: issued + minted,
                            pool2: pool1 + pay,
                        },
                    )
                }
            } else {
                Ok(
                    AddVals {
                        rescue_amount,
                        minted,
                        merged_from: 0,
                        value2: minted,
                        ld2: pay,
                        issued2: issued + minted,
                        pool2: pool1 + pay,
                    },
                )
            }
        }
    }
}

/// What a deposit leaves behind: the queue gained a tail node of the
/// merged value and principal, the supply and pool grew, the caller's
/// active reference points at the new node, and the orphan-rescue
/// transfer was emitted when it applied.  On any error the ledger is
/// untouched and the error is the one the outcome function names.
pub open spec fn add_post(
    pre: State,
    post: State,
    r: Result<Seq<TransferMsg>, ContractError>,
    sender: u64,
    funds: Seq<Coin>,
    height: u64,
) -> bool {
    match r {
        Ok(msgs) => payment_ok(funds, pre.config.bond_denom@) && match add_spec(
            pre,
            sender,
            funds[0].amount as int,
        ) {
            Ok(v) => {
                &&& post.config == pre.config
                &&& post.supply.issued == v.issued2
                &&& post.supply.claims == pre.supply.claims
                &&& post.pool == v.pool2
                &&& post.queue@ =~= (if v.merged_from != 0 {
                    pre.queue@.remove(idx_of(pre.queue@, v.merged_from))
                } else {
                    pre.queue@
                }).push(
                    NodeWithId {
                        id: pre.queue.next_id(),
                        owner: sender,
                        value: v.value2 as u128,
                        last_deposit: v.ld2 as u128,
                        height,
                    },
                )
                &&& post.active@ =~= pre.active@.insert(sender, pre.queue.next_id())
                &&& post.claimable == pre.claimable
                &&& post.unclaimed == pre.unclaimed
                &&& msgs =~= (if v.rescue_amount > 0 {
                    seq![
                        TransferMsg::Native {
                            to: pre.config.owner,
                            amount: v.rescue_amount as u128,
                        },
                    ]
                } else {
                    Seq::<TransferMsg>::empty()
                })
            },
            Err(_) => false,
        },
        Err(e) => post == pre && match e {
            ContractError::Payment(PaymentFailure::NoFunds) => funds.len() == 0 || (funds.len()
                == 1 && funds[0].amount == 0),
            ContractError::Payment(PaymentFailure::MultipleDenoms) => funds.len() > 1,
            ContractError::Payment(PaymentFailure::MissingDenom) => funds.len() == 1
                && funds[0].amount > 0 && funds[0].denom@ != pre.config.bond_denom@,
            _ => payment_ok(funds, pre.config.bond_denom@) && add_spec(
                pre,
                sender,
                funds[0].amount as int,
            ) == Err::<AddVals, ContractError>(e),
        },
    }
}

/// Deposit: mint shares for the attached payment at the current ratio and
/// append (or extend) the caller's queue node.
pub fn execute_add(s: &mut State, sender: u64, funds: &Vec<Coin>, height: u64) -> (r: Result<
    Vec<TransferMsg>,
    ContractError,
>)
    requires
        old(s).wf(),
        old(s).queue.can_append(),
    ensures
        final(s).wf(),
        final(s).config == old(s).config,
        final(s).queue.arena_len() <= old(s).queue.arena_len() + 1,
        add_post(
            *old(s),
            *final(s),
            match r {
                Ok(m) => Ok(m@),
                Err(e) => Err(e),
            },
            sender,
            funds@,
            height,
        ),
{
    let pay = match must_pay_amount(funds, &s.config.bond_denom) {
        Ok(a) => a,
        Err(pf) => {
            return Err(ContractError::Payment(pf));
        },
    };
    let rescue = s.pool > 0 && s.supply.issued == 0;
    let pool1: u128 = if rescue {
        0
    } else {
        s.pool
    };
    let rat = match get_ratio(s.supply.issued, pool1) {
        Some(v) => v,
        None => {
            return Err(ContractError::Overflow);
        },
    };
    let minted = match mul_dec(pay, rat) {
        Some(v) => v,
        None => {
            return Err(ContractError::Overflow);
        },
    };
    if minted == 0 {
        return Err(ContractError::NothingToAdd);
    }
    if s.supply.issued > u128::MAX - minted {
        return Err(ContractError::Overflow);
    }
    let issued2 = s.supply.issued + minted;
    if pool1 > u128::MAX - pay {
        return Err(ContractError::Overflow);
    }
    let pool2 = pool1 + pay;
    let act = s.active.id_of(sender);
    let mut value2 = minted;
    let mut ld2 = pay;
    if act != 0 {
        proof {
            assert(contains_id(s.queue@, act));
        }
        let info = match s.queue.get_info(act) {
            Some(i) => i,
            None => {
                proof {
                    assert(false);
                }
                return Err(ContractError::Overflow);
            },
        };
        if minted > u128::MAX - info.value {
            return Err(ContractError::Overflow);
        }
        value2 = minted + info.value;
        if pay > u128::MAX - info.last_deposit {
            return Err(ContractError::Overflow);
        }
        ld2 = pay + info.last_deposit;
    }
    let ghost pre = *old(s);
    let mut msgs: Vec<TransferMsg> = Vec::new();
    if rescue {
        msgs.push(TransferMsg::Native { to: s.config.owner, amount: s.pool });
    }
    if act != 0 {
        s.queue.remove(act);
    }
    proof {
        pre.queue.lemma_view_ids();
        if act != 0 {
            pre.queue.lemma_idx_unique(act);
        }
    }
    let new_id = s.queue.append(sender, value2, ld2, height);
    s.active.set_id(sender, new_id);
    s.supply.issued = issued2;
    s.pool = pool2;
    proof {
        let base = if act != 0 {
            pre.queue@.remove(idx_of(pre.queue@, act))
        } else {
            pre.queue@
        };
        let newnode = NodeWithId { id: new_id, owner: sender, value: value2, last_deposit: ld2, height };
        assert(s.queue@ =~= base.push(newnode));
        // no surviving node belongs to the sender
        assert forall|k: int| 0 <= k < base.len() implies (#[trigger] base[k]).owner != sender by {
            let k0 = if act != 0 && k >= idx_of(pre.queue@, act) {
                k + 1
            } else {
                k
            };
            assert(base[k] == pre.queue@[k0]);
            if pre.queue@[k0].owner == sender {
                assert(pre.active@[sender] == pre.queue@[k0].id);
                if act == 0 {
                    assert(false);
                } else {
                    assert(pre.queue@[k0].id == act);
                    assert(k0 == idx_of(pre.queue@, act));
                    assert(false);
                }
            }
        }
        // every surviving node keeps its active reference
        assert forall|k: int| 0 <= k < s.queue@.len() implies s.active@[(
        #[trigger] s.queue@[k]).owner] == s.queue@[k].id by {
            if k < base.len() {
                let k0 = if act != 0 && k >= idx_of(pre.queue@, act) {
                    k + 1
                } else {
                    k
                };
                assert(base[k] == pre.queue@[k0]);
                assert(pre.active@[pre.queue@[k0].owner] == pre.queue@[k0].id);
                assert(base[k].owner != sender);
            } else {
                assert(s.queue@[k] == newnode);
            }
        }
        assert forall|o: u64| (#[trigger] s.active@[o]) != 0 implies contains_id(
            s.queue@,
            s.active@[o],
        ) && s.queue@[idx_of(s.queue@, s.active@[o])].owner == o by {
            if o == sender {
                assert(s.queue@[base.len() as int].id == new_id);
                assert(contains_id(s.queue@, new_id));
                let m = idx_of(s.queue@, new_id);
                assert(0 <= m < s.queue@.len() && s.queue@[m].id == new_id);
                if m < base.len() {
                    let k0 = if act != 0 && m >= idx_of(pre.queue@, act) {
                        m + 1
                    } else {
                        m
                    };
                    assert(base[m] == pre.queue@[k0]);
                    assert(pre.queue@[k0].id < pre.queue.next_id());
                    assert(false);
                }
                assert(s.queue@[m] == newnode);
            } else {
                assert(s.active@[o] == pre.active@[o]);
                let id0 = pre.active@[o];
                assert(contains_id(pre.queue@, id0));
                let m0 = idx_of(pre.queue@, id0);
                assert(pre.queue@[m0].owner == o);
                // that node survives into base
                if act != 0 {
                    assert(m0 != idx_of(pre.queue@, act)) by {
                        if m0 == idx_of(pre.queue@, act) {
                            assert(pre.queue@[m0].owner == sender);
                        }
                    }
                    let m = if m0 < idx_of(pre.queue@, act) {
                        m0
                    } else {
                        m0 - 1
                    };
                    assert(base[m] == pre.queue@[m0]);
                    assert(s.queue@[m] == pre.queue@[m0]);
                    assert(contains_id(s.queue@, id0));
                } else {
                    assert(s.queue@[m0] == pre.queue@[m0]);
                    assert(contains_id(s.queue@, id0));
                }
                let m1 = idx_of(s.queue@, id0);
                assert(0 <= m1 < s.queue@.len() && s.queue@[m1].id == id0);
                if m1 == base.len() {
                    assert(s.queue@[m1] == newnode);
                    assert(id0 == new_id);
                    assert(pre.queue@[m0].id < pre.queue.next_id());
                    assert(false);
                }
                let k1 = if act != 0 && m1 >= idx_of(pre.queue@, act) {
                    m1 + 1
                } else {
                    m1
                };
                assert(s.queue@[m1] == pre.queue@[k1]);
                assert(pre.queue@[k1].id == id0);
                pre.queue.lemma_idx_unique(id0);
                assert(k1 == m0);
            }
        }
        assert(s.wf());
    }
    Ok(msgs)
}

/// Values produced by a successful withdrawal.
pub struct RemoveVals {
    /// Id of the removed node.
    pub node_id: u64,
    /// Shares the node held.
    pub node_value: int,
    /// Base asset paid out for them.
    pub payout: int,
    /// Issued shares afterwards.
    pub issued2: int,
    /// Pool balance afterwards.
    pub pool2: int,
}

/// Outcome of a withdrawal by `owner` on ledger `s`.
pub open spec fn remove_spec(s: State, owner: u64) -> Result<RemoveVals, ContractError> {
    let act = s.active@[owner];
    if act == 0 {
        Err(ContractError::NothingToRemove)
    } else {
        let nd = s.queue@[idx_of(s.queue@, act)];
        let issued = s.supply.issued as int;
        if issued == 0 {
            Err(ContractError::DivideByZero)
        } else {
            let payout = mul_ratio_spec(nd.value as int, s.pool as int, issued);
            if !fits(payout) {
                Err(ContractError::Overflow)
            } else if payout == 0 {
                Err(ContractError::GainNothingWhenRemove)
            } else if nd.value > issued {
                Err(ContractError::Overflow)
            } else if payout > s.pool {
                Err(ContractError::Overflow)
            } else {
                Ok(
                    RemoveVals {
                        node_id: act,
                        node_value: nd.value as int,
                        payout,
                        issued2: issued - nd.value,
                        pool2: s.pool - payout,
                    },
                )
            }
        }
    }
}

/// What a withdrawal leaves behind: the caller's node is gone, its share
/// of the pool was paid out, supply and pool shrank accordingly.  On any
/// error the ledger is untouched.
pub open spec fn remove_post(
    pre: State,
    post: State,
    r: Result<Seq<TransferMsg>, ContractError>,
    sender: u64,
    funds: Seq<Coin>,
) -> bool {
    match r {
        Ok(msgs) => funds.len() == 0 && match remove_spec(pre, sender) {
            Ok(v) => {
                &&& post.config == pre.config
                &&& post.supply.issued == v.issued2
                &&& post.supply.claims == pre.supply.claims
                &&& post.pool == v.pool2
                &&& post.queue@ =~= pre.queue@.remove(idx_of(pre.queue@, v.node_id))
                &&& post.active@ =~= pre.active@.insert(sender, 0u64)
                &&& post.claimable == pre.claimable
                &&& post.unclaimed == pre.unclaimed
                &&& msgs =~= seq![TransferMsg::Native { to: sender, amount: v.payout as u128 }]
            },
            Err(_) => false,
        },
        Err(e) => post == pre && match e {
            ContractError::Payment(PaymentFailure::NonPayable) => funds.len() > 0,
            _ => funds.len() == 0 && remove_spec(pre, sender) == Err::<RemoveVals, ContractError>(
                e,
            ),
        },
    }
}

/// Withdrawal: remove the caller's node and pay out its share of the pool.
pub fn execute_remove(s: &mut State, sender: u64, funds: &Vec<Coin>) -> (r: Result<
    Vec<TransferMsg>,
    ContractError,
>)
    requires
        old(s).wf(),
    ensures
        final(s).wf(),
        final(s).config == old(s).config,
        final(s).queue.arena_len() == old(s).queue.arena_len(),
        remove_post(
            *old(s),
            *final(s),
            match r {
                Ok(m) => Ok(m@),
                Err(e) => Err(e),
            },
            sender,
            funds@,
        ),
{
    if funds.len() > 0 {
        return Err(ContractError::Payment(PaymentFailure::NonPayable));
    }
    let act = s.active.id_of(sender);
    if act == 0 {
        return Err(ContractError::NothingToRemove);
    }
    proof {
        assert(contains_id(s.queue@, act));
    }
    let info = match s.queue.get_info(act) {
        Some(i) => i,
        None => {
            proof {
                assert(false);
            }
            return Err(ContractError::Overflow);
        },
    };
    if s.supply.issued == 0 {
        return Err(ContractError::DivideByZero);
    }
    let payout = match mul_ratio(info.value, s.pool, s.supply.issued) {
        Some(v) => v,
        None => {
            return Err(ContractError::Overflow);
        },
    };
    if payout == 0 {
        return Err(ContractError::GainNothingWhenRemove);
    }
    if info.value > s.supply.issued {
        return Err(ContractError::Overflow);
    }
    if payout > s.pool {
        return Err(ContractError::Overflow);
    }
    let ghost pre = *old(s);
    s.queue.remove(act);
    s.active.set_id(sender, 0);
    s.supply.issued = s.supply.issued - info.value;
    s.pool = s.pool - payout;
    let mut msgs: Vec<TransferMsg> = Vec::new();
    msgs.push(TransferMsg::Native { to: sender, amount: payout });
    proof {
        pre.queue.lemma_view_ids();
        pre.queue.lemma_idx_unique(act);
        let kk = idx_of(pre.queue@, act);
        assert(pre.queue@[kk].owner == sender);
        assert forall|k: int| 0 <= k < s.queue@.len() implies s.active@[(
        #[trigger] s.queue@[k]).owner] == s.queue@[k].id by {
            let k0 = if k >= kk {
                k + 1
            } else {
                k
            };
            assert(s.queue@[k] == pre.queue@[k0]);
            assert(pre.active@[pre.queue@[k0].owner] == pre.queue@[k0].id);
            if pre.queue@[k0].owner == sender {
                assert(pre.queue@[k0].id == act);
                assert(k0 == kk);
                assert(false);
            }
        }
        assert forall|o: u64| (#[trigger] s.active@[o]) != 0 implies contains_id(
            s.queue@,
            s.active@[o],
        ) && s.queue@[idx_of(s.queue@, s.active@[o])].owner == o by {
            assert(o != sender);
            assert(s.active@[o] == pre.active@[o]);
            let id0 = pre.active@[o];
            let m0 = idx_of(pre.queue@, id0);
            assert(contains_id(pre.queue@, id0));
            assert(pre.queue@[m0].owner == o);
            assert(m0 != kk) by {
                if m0 == kk {
                    assert(pre.queue@[m0].owner == sender);
                }
            }
            let m = if m0 < kk {
                m0
            } else {
                m0 - 1
            };
            assert(s.queue@[m] == pre.queue@[m0]);
            assert(contains_id(s.queue@, id0));
            let m1 = idx_of(s.queue@, id0);
            assert(0 <= m1 < s.queue@.len() && s.queue@[m1].id == id0);
            let k1 = if m1 >= kk {
                m1 + 1
            } else {
                m1
            };
            assert(s.queue@[m1] == pre.queue@[k1]);
            pre.queue.lemma_idx_unique(id0);
            assert(k1 == m0);
        }
        assert(s.wf());
    }
    Ok(msgs)
}

/// Values produced by a successful settlement.
pub struct ClaimVals {
    /// Target-asset amount paid out (the whole claimable balance).
    pub to_send: int,
    /// Reserved claims afterwards.
    pub claims2: int,
    /// Newly realized base-asset reward on the owner's active node, 0 when
    /// none: its share value at the current ratio minus its principal.
    pub reward: int,
    /// Share-value equivalent of that reward, burned from the node and
    /// from the issued supply.
    pub reward_shares: int,
    /// Base-asset reward paid out: stored rewards plus the harvest.
    pub unclaimed_total: int,
    /// Issued shares afterwards.
    pub issued2: int,
    /// Pool balance afterwards.
    pub pool2: int,
    /// The owner's active node, 0 for none.
    pub node_id: u64,
    /// Its share value afterwards.
    pub node_value2: int,
}

/// Outcome of a settlement by `owner` on ledger `s`: the claimable balance
/// is paid in the target asset; stored rewards plus the unrealized gain of
/// the owner's still-active node are crystallized and paid in the base
/// asset.  The gain is the matching engine's reward for the whole
/// remaining principal: `value * (issued / pool) - principal`; the pool
/// shrinks by that base amount, the node and the supply by its share
/// equivalent at the same ratio.
pub open spec fn claim_spec(s: State, owner: u64) -> Result<ClaimVals, ContractError> {
    let to_send = s.claimable@[owner] as int;
    let issued = s.supply.issued as int;
    let pool = s.pool as int;
    if to_send == 0 {
        Err(ContractError::NothingToClaim)
    } else if to_send > s.supply.claims {
        Err(ContractError::Overflow)
    } else {
        let claims2 = s.supply.claims - to_send;
        let unclaimed0 = s.unclaimed@[owner] as int;
        let pos = s.active@[owner];
        if pos != 0 {
            let nd = s.queue@[idx_of(s.queue@, pos)];
            let rat1 = ratio_spec(issued, pool);
            if !fits(rat1) {
                Err(ContractError::Overflow)
            } else {
                let gross = mul_dec_spec(nd.value as int, rat1);
                if !fits(gross) {
                    Err(ContractError::Overflow)
                } else if gross < nd.last_deposit {
                    Err(ContractError::Overflow)
                } else {
                    let reward = gross - nd.last_deposit;
                    if reward > 0 {
                        let shares = mul_dec_spec(reward, rat1);
                        if !fits(shares) {
                            Err(ContractError::Overflow)
                        } else if !fits(unclaimed0 + reward) {
                            Err(ContractError::Overflow)
                        } else if reward > pool {
                            Err(ContractError::Overflow)
                        } else if shares > issued {
                            Err(ContractError::Overflow)
                        } else if shares > nd.value {
                            Err(ContractError::Overflow)
                        } else {
                            Ok(
                                ClaimVals {
                                    to_send,
                                    claims2,
                                    reward,
                                    reward_shares: shares,
                                    unclaimed_total: unclaimed0 + reward,
                                    issued2: issued - shares,
                                    pool2: pool - reward,
                                    node_id: pos,
                                    node_value2: nd.value - shares,
                                },
                            )
                        }
                    } else {
                        Ok(
                            ClaimVals {
                                to_send,
                                claims2,
                                reward: 0,
                                reward_shares: 0,
                                unclaimed_total: unclaimed0,
                                issued2: issued,
                                pool2: pool,
                                node_id: pos,
                                node_value2: nd.value as int,
                            },
                        )
                    }
                }
            }
        } else {
            Ok(
                ClaimVals {
                    to_send,
                    claims2,
                    reward: 0,
                    reward_shares: 0,
                    unclaimed_total: unclaimed0,
                    issued2: issued,
                    pool2: pool,
                    node_id: 0,
                    node_value2: 0,
                },
            )
        }
    }
}

/// What a settlement leaves behind: both of the caller's accounts are
/// zeroed, the reserved claims shrank by the paid amount, the harvested
/// reward left the pool and the supply, and the caller's node was written
/// down.  On any error the ledger is untouched.
pub open spec fn claim_post(
    pre: State,
    post: State,
    r: Result<Seq<TransferMsg>, ContractError>,
    sender: u64,
    funds: Seq<Coin>,
) -> bool {
    match r {
        Ok(msgs) => funds.len() == 0 && match claim_spec(pre, sender) {
            Ok(v) => {
                &&& post.config == pre.config
                &&& post.supply.issued == v.issued2
                &&& post.supply.claims == v.claims2
                &&& post.pool == v.pool2
                &&& post.claimable@ =~= pre.claimable@.insert(sender, 0u128)
                &&& post.unclaimed@ =~= pre.unclaimed@.insert(sender, 0u128)
                &&& post.active == pre.active
                &&& post.queue@ =~= (if v.node_id != 0 && v.reward > 0 {
                    pre.queue@.update(
                        idx_of(pre.queue@, v.node_id),
                        NodeWithId {
                            value: v.node_value2 as u128,
                            ..pre.queue@[idx_of(pre.queue@, v.node_id)]
                        },
                    )
                } else {
                    pre.queue@
                })
                &&& msgs =~= (if v.unclaimed_total > 0 {
                    seq![
                        TransferMsg::Native { to: sender, amount: v.unclaimed_total as u128 },
                        TransferMsg::Token { to: sender, amount: v.to_send as u128 },
                    ]
                } else {
                    seq![TransferMsg::Token { to: sender, amount: v.to_send as u128 }]
                })
            },
            Err(_) => false,
        },
        Err(e) => post == pre && match e {
            ContractError::Payment(PaymentFailure::NonPayable) => funds.len() > 0,
            _ => funds.len() == 0 && claim_spec(pre, sender) == Err::<ClaimVals, ContractError>(e),
        },
    }
}

/// Settlement: pay out the caller's claims and rewards and reset both
/// accounts; the caller's active node, if any, is written down by the
/// harvested shares.
pub fn execute_claim(s: &mut State, sender: u64, funds: &Vec<Coin>) -> (r: Result<
    Vec<TransferMsg>,
    ContractError,
>)
    requires
        old(s).wf(),
    ensures
        final(s).wf(),
        final(s).config == old(s).config,
        final(s).queue.arena_len() == old(s).queue.arena_len(),
        claim_post(
            *old(s),
            *final(s),
            match r {
                Ok(m) => Ok(m@),
                Err(e) => Err(e),
            },
            sender,
            funds@,
        ),
{
    if funds.len() > 0 {
        return Err(ContractError::Payment(PaymentFailure::NonPayable));
    }
    let to_send = s.claimable.amount_of(sender);
    if to_send == 0 {
        return Err(ContractError::NothingToClaim);
    }
    if to_send > s.supply.claims {
        return Err(ContractError::Overflow);
    }
    let claims2 = s.supply.claims - to_send;
    let unclaimed0 = s.unclaimed.amount_of(sender);
    let pos = s.active.id_of(sender);
    let mut unclaimed_total = unclaimed0;
    let mut reward: u128 = 0;
    let mut node_value2: u128 = 0;
    let mut node_ld: u128 = 1;
    let mut pool2 = s.pool;
    let mut issued2 = s.supply.issued;
    if pos != 0 {
        proof {
            assert(contains_id(s.queue@, pos));
        }
        let info = match s.queue.get_info(pos) {
            Some(i) => i,
            None => {
                proof {
                    assert(false);
                }
                return Err(ContractError::Overflow);
            },
        };
        let rat1 = match get_ratio(s.supply.issued, s.pool) {
            Some(v) => v,
            None => {
                return Err(ContractError::Overflow);
            },
        };
        let gross = match mul_dec(info.value, rat1) {
            Some(v) => v,
            None => {
                return Err(ContractError::Overflow);
            },
        };
        if gross < info.last_deposit {
            return Err(ContractError::Overflow);
        }
        reward = gross - info.last_deposit;
        node_value2 = info.value;
        node_ld = info.last_deposit;
        if reward > 0 {
            let shares = match mul_dec(reward, rat1) {
                Some(v) => v,
                None => {
                    return Err(ContractError::Overflow);
                },
            };
            if unclaimed0 > u128::MAX - reward {
                return Err(ContractError::Overflow);
            }
            if reward > s.pool {
                return Err(ContractError::Overflow);
            }
            if shares > s.supply.issued {
                return Err(ContractError::Overflow);
            }
            if shares > info.value {
                return Err(ContractError::Overflow);
            }
            unclaimed_total = unclaimed0 + reward;
            pool2 = s.pool - reward;
            issued2 = s.supply.issued - shares;
            node_value2 = info.value - shares;
        }
    }
    let ghost pre = *old(s);
    if pos != 0 && reward > 0 {
        proof {
            s.queue.lemma_view_ids();
        }
        s.queue.update_value(pos, node_value2, node_ld);
    }
    s.claimable.set_amount(sender, 0);
    s.unclaimed.set_amount(sender, 0);
    s.supply.claims = claims2;
    s.supply.issued = issued2;
    s.pool = pool2;
    let mut msgs: Vec<TransferMsg> = Vec::new();
    if unclaimed_total > 0 {
        msgs.push(TransferMsg::Native { to: sender, amount: unclaimed_total });
    }
    msgs.push(TransferMsg::Token { to: sender, amount: to_send });
    proof {
        if pos != 0 && reward > 0 {
            let kk = idx_of(pre.queue@, pos);
            pre.queue.lemma_idx_unique(pos);
            assert forall|k: int| 0 <= k < s.queue@.len() implies s.active@[(
            #[trigger] s.queue@[k]).owner] == s.queue@[k].id by {
                if k != kk {
                    assert(s.queue@[k] == pre.queue@[k]);
                }
                assert(pre.active@[pre.queue@[k].owner] == pre.queue@[k].id);
            }
            assert forall|o: u64| (#[trigger] s.active@[o]) != 0 implies contains_id(
                s.queue@,
                s.active@[o],
            ) && s.queue@[idx_of(s.queue@, s.active@[o])].owner == o by {
                let id0 = pre.active@[o];
                let m0 = idx_of(pre.queue@, id0);
                assert(contains_id(pre.queue@, id0));
                assert(pre.queue@[m0].owner == o);
                assert(s.queue@[m0].id == id0 && s.queue@[m0].owner == o);
                assert(contains_id(s.queue@, id0));
                let m1 = idx_of(s.queue@, id0);
                assert(0 <= m1 < s.queue@.len() && s.queue@[m1].id == id0);
                assert(pre.queue@[m1].id == id0);
                pre.queue.lemma_idx_unique(id0);
                assert(m1 == m0);
            }
            assert(s.wf());
        }
    }
    Ok(msgs)
}

/// Creates a fresh ledger: empty pool, empty queue, zero supply, and the
/// default fee.  The host supplies the validated addresses and the bonded
/// denomination; the call accepts no payment.
pub fn instantiate(
    funds: &Vec<Coin>,
    sender: u64,
    bond_denom: String,
    liquid_token_addr: u64,
    staking_manager_addr: u64,
) -> (r: Result<State, ContractError>)
    ensures
        match r {
            Ok(s) => {
                &&& funds@.len() == 0
                &&& s.wf()
                &&& s.balanced()
                &&& s.config.owner == sender
                &&& s.config.bond_denom@ == bond_denom@
                &&& s.config.liquid_token_addr == liquid_token_addr
                &&& s.config.staking_manager_addr == staking_manager_addr
                &&& s.config.swap_fee == DEFAULT_SWAP_FEE
                &&& s.supply.issued == 0 && s.supply.claims == 0 && s.pool == 0
                &&& s.queue@ =~= Seq::<NodeWithId>::empty()
                &&& s.queue.arena_len() == 0
                &&& forall|o: u64|
                    s.claimable@[o] == 0 && s.unclaimed@[o] == 0 && (#[trigger] s.active@[o]) == 0
            },
            Err(e) => e == ContractError::Payment(PaymentFailure::NonPayable) && funds@.len() > 0,
        },
{
    if funds.len() > 0 {
        return Err(ContractError::Payment(PaymentFailure::NonPayable));
    }
    let s = State {
        config: ConfigInfo {
            owner: sender,
            bond_denom,
            liquid_token_addr,
            staking_manager_addr,
            swap_fee: DEFAULT_SWAP_FEE,
        },
        supply: Supply { issued: 0, claims: 0 },
        pool: 0,
        queue: OrderQueue::new(),
        claimable: Accounts::new(),
        unclaimed: Accounts::new(),
        active: ActiveIds::new(),
    };
    Ok(s)
}

/// Owner-only change of the conversion fee.
pub fn execute_set_swap_fee(s: &mut State, sender: u64, funds: &Vec<Coin>, swap_fee: u128) -> (r:
    Result<Vec<TransferMsg>, ContractError>)
    requires
        old(s).wf(),
    ensures
        final(s).wf(),
        set_fee_post(
            *old(s),
            *final(s),
            match r {
                Ok(m) => Ok(m@),
                Err(e) => Err(e),
            },
            sender,
            funds@,
            swap_fee,
        ),
{
    if funds.len() > 0 {
        return Err(ContractError::Payment(PaymentFailure::NonPayable));
    }
    if sender != s.config.owner {
        return Err(ContractError::Unauthorized);
    }
    s.config.swap_fee = swap_fee;
    Ok(Vec::new())
}

/// Claimable target-asset balance of an address.
pub fn query_claimable_of(s: &State, address: u64) -> (r: BalanceResponse)
    ensures
        r.balance == s.claimable@[address],
{
    BalanceResponse { balance: s.claimable.amount_of(address) }
}

/// Snapshot of the configuration.
pub fn query_config(s: &State) -> (r: ConfigResponse)
    ensures
        r.owner == s.config.owner,
        r.bond_denom@ == s.config.bond_denom@,
        r.liquid_token_addr == s.config.liquid_token_addr,
        r.staking_manager_addr == s.config.staking_manager_addr,
        r.swap_fee == s.config.swap_fee,
{
    ConfigResponse {
        owner: s.config.owner,
        bond_denom: s.config.bond_denom.clone(),
        liquid_token_addr: s.config.liquid_token_addr,
        staking_manager_addr: s.config.staking_manager_addr,
        swap_fee: s.config.swap_fee,
    }
}

/// Pool status; `balance` is the bank balance of the pool account, queried
/// by the host.
pub fn query_status(s: &State, balance: u128) -> (r: Result<StatusResponse, ContractError>)
    ensures
        match r {
            Ok(st) => {
                &&& st.issued == s.supply.issued && st.claims == s.supply.claims
                &&& st.balance == balance
                &&& st.ratio == ratio_spec(balance as int, s.supply.issued as int)
                &&& fits(ratio_spec(balance as int, s.supply.issued as int))
            },
            Err(e) => e == ContractError::Overflow && !fits(
                ratio_spec(balance as int, s.supply.issued as int),
            ),
        },
{
    let ratio = match get_ratio(balance, s.supply.issued) {
        Some(v) => v,
        None => {
            return Err(ContractError::Overflow);
        },
    };
    Ok(
        StatusResponse {
            issued: s.supply.issued,
            claims: s.supply.claims,
            balance,
            ratio,
        },
    )
}

/// One owner's queue position: shares, their base-asset equivalent at the
/// bank balance `balance`, and insertion height.
pub fn query_order_info_of(s: &State, balance: u128, address: u64) -> (r: Result<
    OrderInfoOfResponse,
    ContractError,
>)
    requires
        s.wf(),
    ensures
        match r {
            Ok(oi) => {
                &&& oi.node_id == s.active@[address]
                &&& oi.issued == (if s.active@[address] != 0 {
                    s.queue@[idx_of(s.queue@, s.active@[address])].value
                } else {
                    0u128
                })
                &&& oi.height == (if s.active@[address] != 0 {
                    s.queue@[idx_of(s.queue@, s.active@[address])].height
                } else {
                    0u64
                })
                &&& oi.native == mul_dec_spec(
                    oi.issued as int,
                    ratio_spec(balance as int, s.supply.issued as int),
                )
            },
            Err(e) => e == ContractError::Overflow && {
                let shares = (if s.active@[address] != 0 {
                    s.queue@[idx_of(s.queue@, s.active@[address])].value as int
                } else {
                    0
                });
                ||| !fits(ratio_spec(balance as int, s.supply.issued as int))
                ||| !fits(
                    mul_dec_spec(shares, ratio_spec(balance as int, s.supply.issued as int)),
                )
            },
        },
{
    let node_id = s.active.id_of(address);
    let mut issued_n: u128 = 0;
    let mut height: u64 = 0;
    if node_id != 0 {
        proof {
            assert(contains_id(s.queue@, node_id));
        }
        let info = match s.queue.get_info(node_id) {
            Some(i) => i,
            None => {
                proof {
                    assert(false);
                }
                return Err(ContractError::Overflow);
            },
        };
        issued_n = info.value;
        height = info.height;
    }
    let ratio = match get_ratio(balance, s.supply.issued) {
        Some(v) => v,
        None => {
            return Err(ContractError::Overflow);
        },
    };
    let native = match mul_dec(issued_n, ratio) {
        Some(v) => v,
        None => {
            return Err(ContractError::Overflow);
        },
    };
    Ok(OrderInfoOfResponse { issued: issued_n, native, height, node_id })
}

/// A floored product-quotient with `num <= den` cannot exceed its first
/// factor.
pub proof fn lemma_mul_ratio_le(x: int, num: int, den: int)
    requires
        0 <= x,
        0 <= num,
        num <= den,
        0 < den,
    ensures
        0 <= mul_ratio_spec(x, num, den),
        mul_ratio_spec(x, num, den) <= x,
{
    assert(0 <= x * num) by (nonlinear_arith)
        requires
            0 <= x,
            0 <= num,
    ;
    assert(x * num <= x * den) by (nonlinear_arith)
        requires
            0 <= x,
            num <= den,
    ;
    vstd::arithmetic::div_mod::lemma_div_pos_is_pos(x * num, den);
    vstd::arithmetic::div_mod::lemma_div_is_ordered(x * num, x * den, den);
    vstd::arithmetic::div_mod::lemma_div_multiples_vanish(x, den);
    assert(den * x == x * den) by (nonlinear_arith);
}

/// State carried out of the matching loop.
pub struct FillOut {
    /// The queue afterwards: untouched nodes, behind a possibly written
    /// down former head.
    pub queue: Seq<NodeWithId>,
    /// Claim accounts afterwards.
    pub claimable: Map<u64, u128>,
    /// Reward accounts afterwards.
    pub unclaimed: Map<u64, u128>,
    /// Active-node references afterwards.
    pub active: Map<u64, u64>,
    /// Total base-asset rewards credited by this call.
    pub rewards: int,
}

/// One matching loop, oldest node first: while base value remains to be
/// covered, the head is matched up to its principal, its owner is credited
/// with a proportional target-asset claim and the pro-rated unrealized
/// gain of the node, and the head is consumed (full fill) or written down
/// in place (partial fill, which ends the loop).
pub open spec fn fill_rec(
    q: Seq<NodeWithId>,
    rem: int,
    amount: int,
    onv: int,
    rat: int,
    cl: Map<u64, u128>,
    un: Map<u64, u128>,
    act: Map<u64, u64>,
    rew: int,
) -> Result<FillOut, ContractError>
    decreases q.len(),
{
    if rem <= 0 {
        Ok(FillOut { queue: q, claimable: cl, unclaimed: un, active: act, rewards: rew })
    } else if q.len() == 0 {
        Err(ContractError::QueueExhausted)
    } else {
        let nd = q[0];
        let matched: int = if nd.last_deposit <= rem {
            nd.last_deposit as int
        } else {
            rem
        };
        let earning = mul_ratio_spec(amount, matched, onv);
        if !fits(cl[nd.owner] + earning) {
            Err(ContractError::Overflow)
        } else {
            let cl2 = cl.insert(nd.owner, (cl[nd.owner] + earning) as u128);
            let gross = mul_dec_spec(nd.value as int, rat);
            if !fits(gross) {
                Err(ContractError::Overflow)
            } else if gross < nd.last_deposit {
                Err(ContractError::Overflow)
            } else {
                let rp = mul_ratio_spec(gross - nd.last_deposit, matched, nd.last_deposit as int);
                if !fits(rew + rp) {
                    Err(ContractError::Overflow)
                } else if !fits(un[nd.owner] + rp) {
                    Err(ContractError::Overflow)
                } else {
                    let un2 = un.insert(nd.owner, (un[nd.owner] + rp) as u128);
                    if matched == nd.last_deposit {
                        fill_rec(
                            q.drop_first(),
                            rem - matched,
                            amount,
                            onv,
                            rat,
                            cl2,
                            un2,
                            act.insert(nd.owner, 0u64),
                            rew + rp,
                        )
                    } else {
                        let reduce = mul_ratio_spec(nd.value as int, matched, nd.last_deposit as int);
                        Ok(
                            FillOut {
                                queue: q.update(
                                    0,
                                    NodeWithId {
                                        value: (nd.value - reduce) as u128,
                                        last_deposit: (nd.last_deposit - matched) as u128,
                                        ..nd
                                    },
                                ),
                                claimable: cl2,
                                unclaimed: un2,
                                active: act,
                                rewards: rew + rp,
                            },
                        )
                    }
                }
            }
        }
    }
}

/// The checks a conversion performs before it touches the queue: fee, net
/// target value, base value sought, share value, liquidity and claims
/// bookkeeping.  Yields the base value sought, the ratio atomics used for
/// both share conversion and rewards, and the share value consumed.
pub open spec fn swap_prelude(s: State, amount: int, ratio_ext: int) -> Result<
    (int, int, int),
    ContractError,
> {
    let fee = mul_ratio_spec(amount, s.config.swap_fee as int, FEE_SCALE as int);
    if !fits(fee) {
        Err(ContractError::Overflow)
    } else if fee > amount {
        Err(ContractError::Overflow)
    } else {
        let onv = mul_dec_spec(amount - fee, ratio_ext);
        if !fits(onv) {
            Err(ContractError::Overflow)
        } else if onv == 0 {
            Err(ContractError::GainNothingWhenSwap)
        } else {
            let rat = ratio_spec(s.supply.issued as int, s.pool as int);
            if !fits(rat) {
                Err(ContractError::Overflow)
            } else {
                let order_lp = mul_dec_spec(onv, rat);
                if !fits(order_lp) {
                    Err(ContractError::Overflow)
                } else if order_lp > s.supply.issued {
                    Err(ContractError::InsufficientLiquidity)
                } else if !fits(s.supply.claims + amount) {
                    Err(ContractError::Overflow)
                } else {
                    Ok((onv, rat, order_lp))
                }
            }
        }
    }
}

/// Values produced by a successful conversion.
pub struct SwapVals {
    /// Base value sought and paid out to the converter.
    pub onv: int,
    /// Share value consumed from the issued supply.
    pub order_lp: int,
    /// Issued shares afterwards.
    pub issued2: int,
    /// Reserved claims afterwards.
    pub claims2: int,
    /// Pool balance afterwards.
    pub pool2: int,
    /// Queue, accounts and rewards after the matching loop.
    pub fill: FillOut,
}

/// Outcome of converting `amount` of the target asset at the external
/// ratio `ratio_ext` (atomics), on ledger `s`.
pub open spec fn swap_spec(s: State, amount: int, ratio_ext: int) -> Result<
    SwapVals,
    ContractError,
> {
    match swap_prelude(s, amount, ratio_ext) {
        Err(e) => Err(e),
        Ok((onv, rat, order_lp)) => match fill_rec(
            s.queue@,
            onv,
            amount,
            onv,
            rat,
            s.claimable@,
            s.unclaimed@,
            s.active@,
            0,
        ) {
            Err(e) => Err(e),
            Ok(f) => if f.rewards + onv > s.pool {
                Err(ContractError::Overflow)
            } else {
                Ok(
                    SwapVals {
                        onv,
                        order_lp,
                        issued2: s.supply.issued - order_lp,
                        claims2: s.supply.claims + amount,
                        pool2: s.pool - f.rewards - onv,
                        fill: f,
                    },
                )
            },
        },
    }
}

/// What a conversion leaves behind: claims grew by the full request, the
/// consumed share value left the supply, the paid base value and rewards
/// left the pool, and the queue lost a prefix (with at most one partial
/// head remaining).  On any error the ledger is untouched.
pub open spec fn swap_post(
    pre: State,
    post: State,
    r: Result<Seq<TransferMsg>, ContractError>,
    sender: u64,
    amount: int,
    ratio_ext: int,
) -> bool {
    match r {
        Ok(msgs) => match swap_spec(pre, amount, ratio_ext) {
            Ok(v) => {
                &&& post.config == pre.config
                &&& post.supply.issued == v.issued2
                &&& post.supply.claims == v.claims2
                &&& post.pool == v.pool2
                &&& post.queue@ =~= v.fill.queue
                &&& post.claimable@ =~= v.fill.claimable
                &&& post.unclaimed@ =~= v.fill.unclaimed
                &&& post.active@ =~= v.fill.active
                &&& msgs =~= seq![TransferMsg::Native { to: sender, amount: v.onv as u128 }]
            },
            Err(_) => false,
        },
        Err(e) => post == pre && swap_spec(pre, amount, ratio_ext) == Err::<
            SwapVals,
            ContractError,
        >(e),
    }
}

/// Conversion: consume `amount` of the target asset on behalf of `sender`,
/// walking the queue oldest-first.  `ratio_ext` is the target-to-base
/// ratio (atomics) answered by the external ratio source for this call.
pub fn execute_swap(s: &mut State, sender: u64, amount: u128, ratio_ext: u128) -> (r: Result<
    Vec<TransferMsg>,
    ContractError,
>)
    requires
        old(s).wf(),
    ensures
        final(s).wf(),
        final(s).config == old(s).config,
        final(s).queue.arena_len() == old(s).queue.arena_len(),
        swap_post(
            *old(s),
            *final(s),
            match r {
                Ok(m) => Ok(m@),
                Err(e) => Err(e),
            },
            sender,
            amount as int,
            ratio_ext as int,
        ),
{
    let fee = match mul_ratio(amount, s.config.swap_fee, FEE_SCALE) {
        Some(v) => v,
        None => {
            return Err(ContractError::Overflow);
        },
    };
    if fee > amount {
        return Err(ContractError::Overflow);
    }
    let net = amount - fee;
    let onv = match mul_dec(net, ratio_ext) {
        Some(v) => v,
        None => {
            return Err(ContractError::Overflow);
        },
    };
    if onv == 0 {
        return Err(ContractError::GainNothingWhenSwap);
    }
    let rat = match get_ratio(s.supply.issued, s.pool) {
        Some(v) => v,
        None => {
            return Err(ContractError::Overflow);
        },
    };
    let order_lp = match mul_dec(onv, rat) {
        Some(v) => v,
        None => {
            return Err(ContractError::Overflow);
        },
    };
    if order_lp > s.supply.issued {
        return Err(ContractError::InsufficientLiquidity);
    }
    if s.supply.claims > u128::MAX - amount {
        return Err(ContractError::Overflow);
    }
    proof {
        assert(swap_prelude(*old(s), amount as int, ratio_ext as int) == Ok::<
            (int, int, int),
            ContractError,
        >((onv as int, rat as int, order_lp as int)));
    }
    let mut queue2 = s.queue.duplicate();
    let mut claimable2 = s.claimable.duplicate();
    let mut unclaimed2 = s.unclaimed.duplicate();
    let mut active2 = s.active.duplicate();
    let mut rewards: u128 = 0;
    let mut rem: u128 = onv;
    while rem > 0
        invariant
            *s == *old(s),
            old(s).wf(),
            queue2.wf(),
            crate::state::queue_active_ok(queue2@, active2@),
            queue2.arena_len() == old(s).queue.arena_len(),
            onv > 0,
            rem <= onv,
            swap_prelude(*old(s), amount as int, ratio_ext as int) == Ok::<
                (int, int, int),
                ContractError,
            >((onv as int, rat as int, order_lp as int)),
            fill_rec(
                old(s).queue@,
                onv as int,
                amount as int,
                onv as int,
                rat as int,
                old(s).claimable@,
                old(s).unclaimed@,
                old(s).active@,
                0,
            ) == fill_rec(
                queue2@,
                rem as int,
                amount as int,
                onv as int,
                rat as int,
                claimable2@,
                unclaimed2@,
                active2@,
                rewards as int,
            ),
        decreases queue2@.len(), rem,
    {
        let ghost q_it = queue2@;
        let ghost cl_it = claimable2@;
        let ghost un_it = unclaimed2@;
        let ghost act_it = active2@;
        let ghost rew_it = rewards as int;
        let ghost rem_it = rem as int;
        if queue2.len() == 0 {
            proof {
                assert(fill_rec(
                    q_it,
                    rem_it,
                    amount as int,
                    onv as int,
                    rat as int,
                    cl_it,
                    un_it,
                    act_it,
                    rew_it,
                ) == Err::<FillOut, ContractError>(ContractError::QueueExhausted));
            }
            return Err(ContractError::QueueExhausted);
        }
        let head = queue2.head();
        proof {
            queue2.lemma_view_ids();
            assert(head.last_deposit >= 1);
        }
        let matched = if head.last_deposit <= rem {
            head.last_deposit
        } else {
            rem
        };
        let earning = match mul_ratio(amount, matched, onv) {
            Some(v) => v,
            None => {
                proof {
                    lemma_mul_ratio_le(amount as int, matched as int, onv as int);
                    assert(false);
                }
                return Err(ContractError::Overflow);
            },
        };
        proof {
            lemma_mul_ratio_le(amount as int, matched as int, onv as int);
        }
        let cl_old = claimable2.amount_of(head.owner);
        if cl_old > u128::MAX - earning {
            proof {
                assert(fill_rec(
                    q_it,
                    rem_it,
                    amount as int,
                    onv as int,
                    rat as int,
                    cl_it,
                    un_it,
                    act_it,
                    rew_it,
                ) == Err::<FillOut, ContractError>(ContractError::Overflow));
            }
            return Err(ContractError::Overflow);
        }
        claimable2.set_amount(head.owner, cl_old + earning);
        let gross = match mul_dec(head.value, rat) {
            Some(v) => v,
            None => {
                proof {
                    assert(fill_rec(
                        q_it,
                        rem_it,
                        amount as int,
                        onv as int,
                        rat as int,
                        cl_it,
                        un_it,
                        act_it,
                        rew_it,
                    ) == Err::<FillOut, ContractError>(ContractError::Overflow));
                }
                return Err(ContractError::Overflow);
            },
        };
        if gross < head.last_deposit {
            proof {
                assert(fill_rec(
                    q_it,
                    rem_it,
                    amount as int,
                    onv as int,
                    rat as int,
                    cl_it,
                    un_it,
                    act_it,
                    rew_it,
                ) == Err::<FillOut, ContractError>(ContractError::Overflow));
            }
            return Err(ContractError::Overflow);
        }
        let excess = gross - head.last_deposit;
        let rp = match mul_ratio(excess, matched, head.last_deposit) {
            Some(v) => v,
            None => {
                proof {
                    lemma_mul_ratio_le(excess as int, matched as int, head.last_deposit as int);
                    assert(false);
                }
                return Err(ContractError::Overflow);
            },
        };
        proof {
            lemma_mul_ratio_le(excess as int, matched as int, head.last_deposit as int);
        }
        if rewards > u128::MAX - rp {
            proof {
                assert(fill_rec(
                    q_it,
                    rem_it,
                    amount as int,
                    onv as int,
                    rat as int,
                    cl_it,
                    un_it,
                    act_it,
                    rew_it,
                ) == Err::<FillOut, ContractError>(ContractError::Overflow));
            }
            return Err(ContractError::Overflow);
        }
        let un_old = unclaimed2.amount_of(head.owner);
        if un_old > u128::MAX - rp {
            proof {
                assert(fill_rec(
                    q_it,
                    rem_it,
                    amount as int,
                    onv as int,
                    rat as int,
                    cl_it,
                    un_it,
                    act_it,
                    rew_it,
                ) == Err::<FillOut, ContractError>(ContractError::Overflow));
            }
            return Err(ContractError::Overflow);
        }
        rewards = rewards + rp;
        unclaimed2.set_amount(head.owner, un_old + rp);
        proof {
            assert forall|a: int, b: int| 0 <= a < b < q_it.len() implies #[trigger] q_it[a].id
                != #[trigger] q_it[b].id by {
                assert(q_it[a].id < q_it[b].id);
            }
        }
        if matched == head.last_deposit {
            queue2.remove_head();
            active2.set_id(head.owner, 0);
            proof {
                crate::state::lemma_qa_drop_head(q_it, act_it);
                assert(queue2@ =~= q_it.drop_first());
                assert(active2@ =~= act_it.insert(head.owner, 0u64));
                assert(claimable2@ =~= cl_it.insert(
                    head.owner,
                    (cl_it[head.owner] + earning) as u128,
                ));
                assert(unclaimed2@ =~= un_it.insert(head.owner, (un_it[head.owner] + rp) as u128));
                assert(fill_rec(
                    q_it,
                    rem_it,
                    amount as int,
                    onv as int,
                    rat as int,
                    cl_it,
                    un_it,
                    act_it,
                    rew_it,
                ) == fill_rec(
                    queue2@,
                    rem_it - matched,
                    amount as int,
                    onv as int,
                    rat as int,
                    claimable2@,
                    unclaimed2@,
                    active2@,
                    rew_it + rp,
                ));
            }
        } else {
            let reduce = match mul_ratio(head.value, matched, head.last_deposit) {
                Some(v) => v,
                None => {
                    proof {
                        lemma_mul_ratio_le(
                            head.value as int,
                            matched as int,
                            head.last_deposit as int,
                        );
                        assert(false);
                    }
                    return Err(ContractError::Overflow);
                },
            };
            proof {
                lemma_mul_ratio_le(head.value as int, matched as int, head.last_deposit as int);
                assert(contains_id(queue2@, head.id));
                queue2.lemma_idx_unique(head.id);
                assert(idx_of(queue2@, head.id) == 0);
            }
            queue2.update_value(head.id, head.value - reduce, head.last_deposit - matched);
            proof {
                let newnode = NodeWithId {
                    value: (head.value - reduce) as u128,
                    last_deposit: (head.last_deposit - matched) as u128,
                    ..head
                };
                crate::state::lemma_qa_update(q_it, act_it, 0, newnode);
                assert(queue2@ =~= q_it.update(0, newnode));
                assert(claimable2@ =~= cl_it.insert(
                    head.owner,
                    (cl_it[head.owner] + earning) as u128,
                ));
                assert(unclaimed2@ =~= un_it.insert(head.owner, (un_it[head.owner] + rp) as u128));
                assert(fill_rec(
                    q_it,
                    rem_it,
                    amount as int,
                    onv as int,
                    rat as int,
                    cl_it,
                    un_it,
                    act_it,
                    rew_it,
                ) == Ok::<FillOut, ContractError>(
                    FillOut {
                        queue: queue2@,
                        claimable: claimable2@,
                        unclaimed: unclaimed2@,
                        active: active2@,
                        rewards: rew_it + rp,
                    },
                ));
            }
        }
        rem = rem - matched;
        proof {
            if rem > 0 {
                assert(fill_rec(
                    queue2@,
                    rem as int,
                    amount as int,
                    onv as int,
                    rat as int,
                    claimable2@,
                    unclaimed2@,
                    active2@,
                    rewards as int,
                ) == fill_rec(
                    old(s).queue@,
                    onv as int,
                    amount as int,
                    onv as int,
                    rat as int,
                    old(s).claimable@,
                    old(s).unclaimed@,
                    old(s).active@,
                    0,
                ));
            }
        }
    }
    proof {
        assert(fill_rec(
            queue2@,
            rem as int,
            amount as int,
            onv as int,
            rat as int,
            claimable2@,
            unclaimed2@,
            active2@,
            rewards as int,
        ) == Ok::<FillOut, ContractError>(
            FillOut {
                queue: queue2@,
                claimable: claimable2@,
                unclaimed: unclaimed2@,
                active: active2@,
                rewards: rewards as int,
            },
        ));
    }
    if rewards > s.pool {
        return Err(ContractError::Overflow);
    }
    if onv > s.pool - rewards {
        return Err(ContractError::Overflow);
    }
    s.supply.issued = s.supply.issued - order_lp;
    s.supply.claims = s.supply.claims + amount;
    s.pool = s.pool - rewards - onv;
    s.queue = queue2;
    s.claimable = claimable2;
    s.unclaimed = unclaimed2;
    s.active = active2;
    let mut msgs: Vec<TransferMsg> = Vec::new();
    msgs.push(TransferMsg::Native { to: sender, amount: onv });
    Ok(msgs)
}

/// What a transfer notification leaves behind: only the target-asset
/// contract may deliver one; it then acts as a conversion on behalf of
/// the originating owner.
pub open spec fn receive_post(
    pre: State,
    post: State,
    r: Result<Seq<TransferMsg>, ContractError>,
    caller: u64,
    funds: Seq<Coin>,
    origin: u64,
    amount: int,
    ratio_ext: int,
) -> bool {
    match r {
        Ok(_) => funds.len() == 0 && caller == pre.config.liquid_token_addr && swap_post(
            pre,
            post,
            r,
            origin,
            amount,
            ratio_ext,
        ),
        Err(e) => post == pre && {
            ||| (e == ContractError::Payment(PaymentFailure::NonPayable) && funds.len() > 0)
            ||| (e == ContractError::Unauthorized && funds.len() == 0 && caller
                != pre.config.liquid_token_addr)
            ||| (funds.len() == 0 && caller == pre.config.liquid_token_addr && swap_spec(
                pre,
                amount,
                ratio_ext,
            ) == Err::<SwapVals, ContractError>(e))
        },
    }
}

/// Incoming target-asset transfer notification: authenticate the calling
/// token contract, then convert on behalf of the originating owner
/// (`origin` is trusted only to be credited, never for withdrawals).
pub fn execute_receive(
    s: &mut State,
    caller: u64,
    funds: &Vec<Coin>,
    origin: u64,
    amount: u128,
    ratio_ext: u128,
) -> (r: Result<Vec<TransferMsg>, ContractError>)
    requires
        old(s).wf(),
    ensures
        final(s).wf(),
        final(s).config == old(s).config,
        final(s).queue.arena_len() == old(s).queue.arena_len(),
        receive_post(
            *old(s),
            *final(s),
            match r {
                Ok(m) => Ok(m@),
                Err(e) => Err(e),
            },
            caller,
            funds@,
            origin,
            amount as int,
            ratio_ext as int,
        ),
{
    if funds.len() > 0 {
        return Err(ContractError::Payment(PaymentFailure::NonPayable));
    }
    if caller != s.config.liquid_token_addr {
        return Err(ContractError::Unauthorized);
    }
    execute_swap(s, origin, amount, ratio_ext)
}

/// What a fee change leaves behind: only the configured owner may set the
/// fee; everything else is untouched.
pub open spec fn set_fee_post(
    pre: State,
    post: State,
    r: Result<Seq<TransferMsg>, ContractError>,
    sender: u64,
    funds: Seq<Coin>,
    swap_fee: u128,
) -> bool {
    match r {
        Ok(msgs) => {
            &&& funds.len() == 0 && sender == pre.config.owner
            &&& post.config.swap_fee == swap_fee
            &&& post.config.owner == pre.config.owner
            &&& post.config.bond_denom@ == pre.config.bond_denom@
            &&& post.config.liquid_token_addr == pre.config.liquid_token_addr
            &&& post.config.staking_manager_addr == pre.config.staking_manager_addr
            &&& post.supply == pre.supply && post.pool == pre.pool
            &&& post.queue == pre.queue
            &&& post.claimable == pre.claimable
            &&& post.unclaimed == pre.unclaimed
            &&& post.active == pre.active
            &&& msgs.len() == 0
        },
        Err(e) => post == pre && match e {
            ContractError::Payment(PaymentFailure::NonPayable) => funds.len() > 0,
            ContractError::Unauthorized => funds.len() == 0 && sender != pre.config.owner,
            _ => false,
        },
    }
}

/// Dispatch of one state-changing call.  `ratio_ext` is the external
/// ratio source's current answer, used only by `Receive`.
pub fn execute(
    s: &mut State,
    sender: u64,
    funds: &Vec<Coin>,
    height: u64,
    ratio_ext: u128,
    msg: ExecuteMsg,
) -> (r: Result<Vec<TransferMsg>, ContractError>)
    requires
        old(s).wf(),
        msg is Add ==> old(s).queue.can_append(),
    ensures
        final(s).wf(),
        final(s).queue.arena_len() <= old(s).queue.arena_len() + 1,
        ({
            let rr = match r {
                Ok(m) => Ok::<Seq<TransferMsg>, ContractError>(m@),
                Err(e) => Err(e),
            };
            match msg {
                ExecuteMsg::Add => add_post(*old(s), *final(s), rr, sender, funds@, height),
                ExecuteMsg::Remove => remove_post(*old(s), *final(s), rr, sender, funds@),
                ExecuteMsg::Claim => claim_post(*old(s), *final(s), rr, sender, funds@),
                ExecuteMsg::SetSwapFee { swap_fee } => set_fee_post(
                    *old(s),
                    *final(s),
                    rr,
                    sender,
                    funds@,
                    swap_fee,
                ),
                ExecuteMsg::Receive { sender: origin, amount } => receive_post(
                    *old(s),
                    *final(s),
                    rr,
                    sender,
                    funds@,
                    origin,
                    amount as int,
                    ratio_ext as int,
                ),
            }
        }),
{
    match msg {
        ExecuteMsg::Add => execute_add(s, sender, funds, height),
        ExecuteMsg::Remove => execute_remove(s, sender, funds),
        ExecuteMsg::Claim => execute_claim(s, sender, funds),
        ExecuteMsg::SetSwapFee { swap_fee } => execute_set_swap_fee(s, sender, funds, swap_fee),
        ExecuteMsg::Receive { sender: origin, amount } => execute_receive(
            s,
            sender,
            funds,
            origin,
            amount,
            ratio_ext,
        ),
    }
}

/// Bound on the nodes returned by [`query_order_book`].
pub const ORDER_BOOK_LIMIT: u64 = 50;

/// Queue header and the first nodes of the queue, up to the fixed bound.
pub fn query_order_book(s: &State) -> (r: OrderBookResponse)
    requires
        s.wf(),
    ensures
        r.length == s.queue@.len(),
        r.head_id == (if s.queue@.len() == 0 {
            0u64
        } else {
            s.queue@[0].id
        }),
        r.tail_id == (if s.queue@.len() == 0 {
            0u64
        } else {
            s.queue@[s.queue@.len() - 1].id
        }),
        r.queue@ =~= s.queue@.take(if ORDER_BOOK_LIMIT <= s.queue@.len() {
            ORDER_BOOK_LIMIT as int
        } else {
            s.queue@.len() as int
        }),
{
    OrderBookResponse {
        head_id: s.queue.head_id(),
        tail_id: s.queue.tail_id(),
        length: s.queue.len(),
        queue: s.queue.snapshot(ORDER_BOOK_LIMIT),
    }
}

/// Dispatch of one read-only query.  `balance` is the bank balance of the
/// pool account, queried by the host for the status and position queries.
pub fn query(s: &State, balance: u128, msg: QueryMsg) -> (r: Result<QueryAnswer, ContractError>)
    requires
        s.wf(),
    ensures
        match msg {
            QueryMsg::ClaimableOf { address } => r matches Ok(QueryAnswer::Claimable(b))
                && b.balance == s.claimable@[address],
            QueryMsg::ConfigInfo => r matches Ok(QueryAnswer::Config(c)) && c.owner
                == s.config.owner && c.bond_denom@ == s.config.bond_denom@ && c.liquid_token_addr
                == s.config.liquid_token_addr && c.staking_manager_addr
                == s.config.staking_manager_addr && c.swap_fee == s.config.swap_fee,
            QueryMsg::StatusInfo => match r {
                Ok(a) => a matches QueryAnswer::Status(st) && st.issued == s.supply.issued
                    && st.claims == s.supply.claims && st.balance == balance && st.ratio
                    == ratio_spec(balance as int, s.supply.issued as int),
                Err(e) => e == ContractError::Overflow && !fits(
                    ratio_spec(balance as int, s.supply.issued as int),
                ),
            },
            QueryMsg::OrderBook => r matches Ok(QueryAnswer::Book(b)) && b.length
                == s.queue@.len() && b.queue@ =~= s.queue@.take(
                if ORDER_BOOK_LIMIT <= s.queue@.len() {
                    ORDER_BOOK_LIMIT as int
                } else {
                    s.queue@.len() as int
                },
            ),
            QueryMsg::OrderInfoOf { address } => match r {
                Ok(a) => a matches QueryAnswer::OrderInfo(oi) && oi.node_id == s.active@[address]
                    && oi.native == mul_dec_spec(
                    oi.issued as int,
                    ratio_spec(balance as int, s.supply.issued as int),
                ) && oi.issued == (if s.active@[address] != 0 {
                    s.queue@[idx_of(s.queue@, s.active@[address])].value
                } else {
                    0u128
                }) && oi.height == (if s.active@[address] != 0 {
                    s.queue@[idx_of(s.queue@, s.active@[address])].height
                } else {
                    0u64
                }),
                Err(e) => e == ContractError::Overflow && {
                    let shares = (if s.active@[address] != 0 {
                        s.queue@[idx_of(s.queue@, s.active@[address])].value as int
                    } else {
                        0
                    });
                    ||| !fits(ratio_spec(balance as int, s.supply.issued as int))
                    ||| !fits(
                        mul_dec_spec(shares, ratio_spec(balance as int, s.supply.issued as int)),
                    )
                },
            },
        },
{
    match msg {
        QueryMsg::ClaimableOf { address } => Ok(
            QueryAnswer::Claimable(query_claimable_of(s, address)),
        ),
        QueryMsg::ConfigInfo => Ok(QueryAnswer::Config(query_config(s))),
        QueryMsg::StatusInfo => match query_status(s, balance) {
            Ok(st) => Ok(QueryAnswer::Status(st)),
            Err(e) => Err(e),
        },
        QueryMsg::OrderBook => Ok(QueryAnswer::Book(query_order_book(s))),
        QueryMsg::OrderInfoOf { address } => match query_order_info_of(s, balance, address) {
            Ok(oi) => Ok(QueryAnswer::OrderInfo(oi)),
            Err(e) => Err(e),
        },
    }
}

} // verus!
