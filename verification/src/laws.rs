//! The library-wide laws: conservation of shares, FIFO matching order,
//! non-negativity, the deposit/withdraw round trip, the orphan rescue and
//! the idempotent no-op failure of settlement, stated over the same
//! outcome functions and views that the operations' contracts use.

use vstd::prelude::*;
use vstd::arithmetic::div_mod::{lemma_div_basics, lemma_div_multiples_vanish};
use crate::arith::{dec_one, mul_dec_spec, mul_ratio_spec, ratio_spec};
use crate::coins::Coin;
use crate::error::{is_state_error, ContractError};
use crate::contract::{
    add_post, add_spec, claim_post, claim_spec, fill_rec, lemma_mul_ratio_le, receive_post,
    remove_post, remove_spec, set_fee_post, swap_post, swap_spec,
};
use crate::msg::TransferMsg;
use crate::queue::{idx_of, NodeWithId};
use crate::state::{lemma_sum_drop_first, lemma_sum_push, lemma_sum_remove, lemma_sum_update,
    sum_values, State};

verus! {

proof fn lemma_ratio_one(num: int, den: int)
    requires
        num == den,
        0 <= num,
    ensures
        ratio_spec(num, den) == dec_one(),
{
    if den != 0 {
        lemma_div_multiples_vanish(dec_one(), den);
        assert(den * dec_one() == num * dec_one()) by (nonlinear_arith)
            requires
                num == den,
        ;
    }
}

proof fn lemma_mul_one(x: int)
    requires
        0 <= x,
    ensures
        mul_dec_spec(x, dec_one()) == x,
{
    lemma_div_multiples_vanish(x, dec_one());
    assert(dec_one() * x == x * dec_one()) by (nonlinear_arith);
}

proof fn lemma_self_ratio(x: int, d: int)
    requires
        0 <= x,
        0 < d,
    ensures
        mul_ratio_spec(x, d, d) == x,
{
    lemma_div_multiples_vanish(x, d);
    assert(d * x == x * d) by (nonlinear_arith);
}

/// Every live node's share value equals its remaining principal.
pub open spec fn all_uniform(q: Seq<NodeWithId>) -> bool {
    forall|k: int| 0 <= k < q.len() ==> (#[trigger] q[k]).value == q[k].last_deposit
}

/// In a balanced ledger the matching loop pays no rewards and burns
/// exactly as many shares as the base value it covers, keeping the nodes
/// uniform.
proof fn lemma_fill_balanced(
    q: Seq<NodeWithId>,
    rem: int,
    amount: int,
    onv: int,
    cl: Map<u64, u128>,
    un: Map<u64, u128>,
    act: Map<u64, u64>,
    rew: int,
)
    requires
        all_uniform(q),
        forall|k: int| 0 <= k < q.len() ==> (#[trigger] q[k]).last_deposit >= 1,
        0 <= rem,
        fill_rec(q, rem, amount, onv, dec_one(), cl, un, act, rew) is Ok,
    ensures
        ({
            let f = fill_rec(q, rem, amount, onv, dec_one(), cl, un, act, rew).unwrap();
            &&& sum_values(f.queue) == sum_values(q) - rem
            &&& f.rewards == rew
            &&& all_uniform(f.queue)
        }),
    decreases q.len(),
{
    if rem <= 0 {
    } else {
        let nd = q[0];
        assert(nd.value == nd.last_deposit);
        let matched: int = if nd.last_deposit <= rem {
            nd.last_deposit as int
        } else {
            rem
        };
        lemma_mul_one(nd.value as int);
        assert(mul_dec_spec(nd.value as int, dec_one()) == nd.value);
        lemma_div_basics(nd.last_deposit as int);
        assert(0 * matched == 0) by (nonlinear_arith);
        assert(mul_ratio_spec(0, matched, nd.last_deposit as int) == 0);
        if nd.last_deposit <= rem {
            let cl2 = cl.insert(
                nd.owner,
                (cl[nd.owner] + mul_ratio_spec(amount, matched, onv)) as u128,
            );
            let un2 = un.insert(nd.owner, (un[nd.owner] + 0) as u128);
            lemma_fill_balanced(
                q.drop_first(),
                rem - matched,
                amount,
                onv,
                cl2,
                un2,
                act.insert(nd.owner, 0u64),
                rew,
            );
            lemma_sum_drop_first(q);
        } else {
            lemma_div_multiples_vanish(matched, nd.last_deposit as int);
            assert(nd.value as int * matched == nd.last_deposit as int * matched);
            assert(mul_ratio_spec(nd.value as int, matched, nd.last_deposit as int) == matched);
            let newnode = NodeWithId {
                value: (nd.value - matched) as u128,
                last_deposit: (nd.last_deposit - matched) as u128,
                ..nd
            };
            lemma_sum_update(q, 0, newnode);
        }
    }
}

/// Conservation under deposit: a balanced ledger stays balanced, and in
/// particular the shares attributed to live nodes still add up to the
/// issued supply.
pub proof fn lemma_add_preserves_invariants(
    pre: State,
    post: State,
    r: Result<Seq<TransferMsg>, ContractError>,
    sender: u64,
    funds: Seq<Coin>,
    height: u64,
)
    requires
        pre.wf(),
        pre.balanced(),
        add_post(pre, post, r, sender, funds, height),
    ensures
        post.balanced(),
{
    match r {
        Err(_) => {},
        Ok(_) => {
            let pay = funds[0].amount as int;
            let issued = pre.supply.issued as int;
            assert(pre.pool == pre.supply.issued);
            lemma_ratio_one(issued, pre.pool as int);
            lemma_mul_one(pay);
            match add_spec(pre, sender, pay) {
                Err(_) => {
                    assert(false);
                },
                Ok(v) => {
                    assert(v.minted == pay);
                    let act = pre.active@[sender];
                    if act != 0 {
                        let kk = idx_of(pre.queue@, act);
                        assert(crate::queue::contains_id(pre.queue@, act));
                        let nd = pre.queue@[kk];
                        assert(nd.value == nd.last_deposit);
                        assert(v.value2 == v.ld2);
                        let base = pre.queue@.remove(kk);
                        lemma_sum_remove(pre.queue@, kk);
                        lemma_sum_push(
                            base,
                            NodeWithId {
                                id: pre.queue.next_id(),
                                owner: sender,
                                value: v.value2 as u128,
                                last_deposit: v.ld2 as u128,
                                height,
                            },
                        );
                        assert(sum_values(post.queue@) == issued + pay);
                        assert forall|k: int| 0 <= k < post.queue@.len() implies (
                        #[trigger] post.queue@[k]).value == post.queue@[k].last_deposit by {
                            if k < base.len() {
                                let k0 = if k < kk {
                                    k
                                } else {
                                    k + 1
                                };
                                assert(post.queue@[k] == pre.queue@[k0]);
                            }
                        }
                    } else {
                        assert(v.value2 == v.ld2);
                        lemma_sum_push(
                            pre.queue@,
                            NodeWithId {
                                id: pre.queue.next_id(),
                                owner: sender,
                                value: v.value2 as u128,
                                last_deposit: v.ld2 as u128,
                                height,
                            },
                        );
                        assert(sum_values(post.queue@) == issued + pay);
                        assert forall|k: int| 0 <= k < post.queue@.len() implies (
                        #[trigger] post.queue@[k]).value == post.queue@[k].last_deposit by {
                            if k < pre.queue@.len() {
                                assert(post.queue@[k] == pre.queue@[k]);
                            }
                        }
                    }
                },
            }
        },
    }
}

/// Conservation under withdrawal.
pub proof fn lemma_remove_preserves_invariants(
    pre: State,
    post: State,
    r: Result<Seq<TransferMsg>, ContractError>,
    sender: u64,
    funds: Seq<Coin>,
)
    requires
        pre.wf(),
        pre.balanced(),
        remove_post(pre, post, r, sender, funds),
    ensures
        post.balanced(),
{
    match r {
        Err(_) => {},
        Ok(_) => {
            match remove_spec(pre, sender) {
                Err(_) => {
                    assert(false);
                },
                Ok(v) => {
                    let kk = idx_of(pre.queue@, v.node_id);
                    assert(crate::queue::contains_id(pre.queue@, v.node_id));
                    let nd = pre.queue@[kk];
                    lemma_self_ratio(nd.value as int, pre.supply.issued as int);
                    assert(v.payout == nd.value);
                    lemma_sum_remove(pre.queue@, kk);
                    assert forall|k: int| 0 <= k < post.queue@.len() implies (
                    #[trigger] post.queue@[k]).value == post.queue@[k].last_deposit by {
                        let k0 = if k < kk {
                            k
                        } else {
                            k + 1
                        };
                        assert(post.queue@[k] == pre.queue@[k0]);
                    }
                },
            }
        },
    }
}

/// Conservation under settlement: in a balanced ledger no reward is
/// crystallized, so supply, pool and queue are untouched.
pub proof fn lemma_claim_preserves_invariants(
    pre: State,
    post: State,
    r: Result<Seq<TransferMsg>, ContractError>,
    sender: u64,
    funds: Seq<Coin>,
)
    requires
        pre.wf(),
        pre.balanced(),
        claim_post(pre, post, r, sender, funds),
    ensures
        post.balanced(),
{
    match r {
        Err(_) => {},
        Ok(_) => {
            match claim_spec(pre, sender) {
                Err(_) => {
                    assert(false);
                },
                Ok(v) => {
                    let pos = pre.active@[sender];
                    if pos != 0 {
                        let kk = idx_of(pre.queue@, pos);
                        assert(crate::queue::contains_id(pre.queue@, pos));
                        let nd = pre.queue@[kk];
                        lemma_ratio_one(pre.supply.issued as int, pre.pool as int);
                        lemma_mul_one(nd.value as int);
                        assert(nd.value == nd.last_deposit);
                        assert(v.reward == 0);
                    }
                },
            }
        },
    }
}

/// Conservation under conversion: a balanced ledger stays balanced; the
/// consumed base value leaves pool and supply in equal measure.
pub proof fn lemma_swap_preserves_invariants(
    pre: State,
    post: State,
    r: Result<Seq<TransferMsg>, ContractError>,
    sender: u64,
    amount: int,
    ratio_ext: int,
)
    requires
        pre.wf(),
        pre.balanced(),
        swap_post(pre, post, r, sender, amount, ratio_ext),
    ensures
        post.balanced(),
{
    match r {
        Err(_) => {},
        Ok(_) => {
            let issued = pre.supply.issued as int;
            lemma_ratio_one(issued, pre.pool as int);
            let fee = mul_ratio_spec(amount, pre.config.swap_fee as int, crate::contract::FEE_SCALE as int);
            let onv = mul_dec_spec(amount - fee, ratio_ext);
            lemma_mul_one(onv);
            match swap_spec(pre, amount, ratio_ext) {
                Err(_) => {
                    assert(false);
                },
                Ok(v) => {
                    assert(v.onv == onv && v.order_lp == onv);
                    pre.queue.lemma_view_ids();
                    lemma_fill_balanced(
                        pre.queue@,
                        onv,
                        amount,
                        onv,
                        pre.claimable@,
                        pre.unclaimed@,
                        pre.active@,
                        0,
                    );
                    assert(sum_values(v.fill.queue) == issued - onv);
                    assert(v.fill.rewards == 0);
                    assert(sum_values(post.queue@) == sum_values(v.fill.queue));
                    assert(all_uniform(post.queue@)) by {
                        assert(post.queue@ =~= v.fill.queue);
                    }
                },
            }
        },
    }
}

/// Conservation under a transfer notification, which acts as a
/// conversion once authenticated.
pub proof fn lemma_receive_preserves_invariants(
    pre: State,
    post: State,
    r: Result<Seq<TransferMsg>, ContractError>,
    caller: u64,
    funds: Seq<Coin>,
    origin: u64,
    amount: int,
    ratio_ext: int,
)
    requires
        pre.wf(),
        pre.balanced(),
        receive_post(pre, post, r, caller, funds, origin, amount, ratio_ext),
    ensures
        post.balanced(),
{
    match r {
        Err(_) => {},
        Ok(_) => {
            lemma_swap_preserves_invariants(pre, post, r, origin, amount, ratio_ext);
        },
    }
}

/// Conservation under a fee change, which touches nothing but the fee.
pub proof fn lemma_set_fee_preserves_invariants(
    pre: State,
    post: State,
    r: Result<Seq<TransferMsg>, ContractError>,
    sender: u64,
    funds: Seq<Coin>,
    swap_fee: u128,
)
    requires
        pre.wf(),
        pre.balanced(),
        set_fee_post(pre, post, r, sender, funds, swap_fee),
    ensures
        post.balanced(),
{
}

/// Conservation is part of the balanced invariant: the shares attributed
/// to live nodes add up exactly to the issued supply.
pub proof fn lemma_conservation(s: State)
    requires
        s.balanced(),
    ensures
        sum_values(s.queue@) == s.supply.issued,
{
}

/// The queue after a conversion is a suffix of the queue before it: the
/// surviving nodes keep their order and payloads, except that the new
/// head may be the old node at that position written down.
pub open spec fn fifo_suffix(q: Seq<NodeWithId>, q2: Seq<NodeWithId>) -> bool {
    &&& q2.len() <= q.len()
    &&& (forall|k: int| 1 <= k < q2.len() ==> q2[k] == q[k + q.len() - q2.len()])
    &&& (q2.len() > 0 ==> {
        let h = q2[0];
        let o = q[q.len() - q2.len()];
        h.id == o.id && h.owner == o.owner && h.height == o.height && h.value <= o.value
            && h.last_deposit <= o.last_deposit
    })
}

proof fn lemma_fill_fifo(
    q: Seq<NodeWithId>,
    rem: int,
    amount: int,
    onv: int,
    rat: int,
    cl: Map<u64, u128>,
    un: Map<u64, u128>,
    act: Map<u64, u64>,
    rew: int,
)
    requires
        0 <= rem,
        0 < onv,
        fill_rec(q, rem, amount, onv, rat, cl, un, act, rew) is Ok,
    ensures
        fifo_suffix(q, fill_rec(q, rem, amount, onv, rat, cl, un, act, rew).unwrap().queue),
    decreases q.len(),
{
    if rem <= 0 {
    } else {
        let nd = q[0];
        let matched: int = if nd.last_deposit <= rem {
            nd.last_deposit as int
        } else {
            rem
        };
        if nd.last_deposit <= rem {
            let cl2 = cl.insert(
                nd.owner,
                (cl[nd.owner] + mul_ratio_spec(amount, matched, onv)) as u128,
            );
            let gross = mul_dec_spec(nd.value as int, rat);
            let rp = mul_ratio_spec(gross - nd.last_deposit, matched, nd.last_deposit as int);
            let un2 = un.insert(nd.owner, (un[nd.owner] + rp) as u128);
            lemma_fill_fifo(
                q.drop_first(),
                rem - matched,
                amount,
                onv,
                rat,
                cl2,
                un2,
                act.insert(nd.owner, 0u64),
                rew + rp,
            );
            let f = fill_rec(q, rem, amount, onv, rat, cl, un, act, rew).unwrap();
            assert(fifo_suffix(q.drop_first(), f.queue));
            assert forall|k: int| 1 <= k < f.queue.len() implies f.queue[k] == q[k + q.len()
                - f.queue.len()] by {
                assert(f.queue[k] == q.drop_first()[k + q.drop_first().len() - f.queue.len()]);
            }
            if f.queue.len() > 0 {
                assert(q.drop_first()[q.drop_first().len() - f.queue.len()] == q[q.len()
                    - f.queue.len()]);
            }
        } else {
            let gross = mul_dec_spec(nd.value as int, rat);
            lemma_mul_ratio_le(nd.value as int, matched, nd.last_deposit as int);
        }
    }
}

/// FIFO order: a conversion consumes a prefix of the queue, writes down at
/// most the new head, and leaves every surviving node behind every
/// consumed one in insertion order (node ids increase with insertion).
pub proof fn lemma_swap_fifo(
    pre: State,
    post: State,
    r: Result<Seq<TransferMsg>, ContractError>,
    sender: u64,
    amount: int,
    ratio_ext: int,
)
    requires
        pre.wf(),
        swap_post(pre, post, r, sender, amount, ratio_ext),
        r is Ok,
    ensures
        fifo_suffix(pre.queue@, post.queue@),
        forall|k: int, l: int|
            0 <= k < pre.queue@.len() - post.queue@.len() && 0 <= l < post.queue@.len() ==> (
            #[trigger] pre.queue@[k].id) < (#[trigger] post.queue@[l].id),
{
    pre.queue.lemma_view_ids();
    match swap_spec(pre, amount, ratio_ext) {
        Err(_) => {
            assert(false);
        },
        Ok(v) => {
            let fee = mul_ratio_spec(amount, pre.config.swap_fee as int, crate::contract::FEE_SCALE as int);
            let onv = mul_dec_spec(amount - fee, ratio_ext);
            let rat = ratio_spec(pre.supply.issued as int, pre.pool as int);
            lemma_fill_fifo(
                pre.queue@,
                onv,
                amount,
                onv,
                rat,
                pre.claimable@,
                pre.unclaimed@,
                pre.active@,
                0,
            );
            assert(post.queue@ =~= v.fill.queue);
            assert(fifo_suffix(pre.queue@, post.queue@));
            let j = pre.queue@.len() - post.queue@.len();
            assert forall|k: int, l: int|
                0 <= k < j && 0 <= l < post.queue@.len() implies (#[trigger] pre.queue@[k].id) < (
            #[trigger] post.queue@[l].id) by {
                assert(post.queue@[l].id == pre.queue@[l + j].id);
                assert(pre.queue@[k].id < pre.queue@[l + j].id);
            }
        },
    }
}

/// No negative balances: every ledger amount is an unsigned integer, so
/// pool, supply, claims and all per-owner accounts are at least zero in
/// every state, after every operation.
pub proof fn lemma_no_negative_balances(s: State)
    ensures
        s.supply.issued >= 0,
        s.supply.claims >= 0,
        s.pool >= 0,
        forall|o: u64| s.claimable@[o] >= 0 && (#[trigger] s.unclaimed@[o]) >= 0,
        forall|k: int|
            0 <= k < s.queue@.len() ==> (#[trigger] s.queue@[k]).value >= 0
                && s.queue@[k].last_deposit >= 0,
{
}

/// Deposit/withdraw round trip: in a balanced ledger (no conversion has
/// intervened), an owner without a position who deposits an amount and
/// withdraws again is paid exactly that amount.
pub proof fn lemma_deposit_withdraw_round_trip(
    pre: State,
    post: State,
    msgs: Seq<TransferMsg>,
    sender: u64,
    funds: Seq<Coin>,
    height: u64,
)
    requires
        pre.wf(),
        pre.balanced(),
        pre.active@[sender] == 0,
        add_post(pre, post, Ok(msgs), sender, funds, height),
    ensures
        remove_spec(post, sender) is Ok,
        remove_spec(post, sender).unwrap().payout == funds[0].amount,
{
    let pay = funds[0].amount as int;
    let issued = pre.supply.issued as int;
    lemma_ratio_one(issued, pre.pool as int);
    lemma_mul_one(pay);
    pre.queue.lemma_view_ids();
    match add_spec(pre, sender, pay) {
        Err(_) => {
            assert(false);
        },
        Ok(v) => {
            assert(v.minted == pay && v.merged_from == 0);
            let new_id = pre.queue.next_id();
            assert(post.active@[sender] == new_id);
            assert(new_id != 0);
            let q2 = post.queue@;
            assert(q2[q2.len() - 1].id == new_id);
            assert(crate::queue::contains_id(q2, new_id));
            let m = idx_of(q2, new_id);
            assert(0 <= m < q2.len() && q2[m].id == new_id);
            if m < q2.len() - 1 {
                assert(q2[m] == pre.queue@[m]);
                assert(pre.queue@[m].id < new_id);
                assert(false);
            }
            assert(q2[m].value == pay && q2[m].owner == sender);
            assert(post.supply.issued == issued + pay);
            assert(post.pool == issued + pay);
            lemma_self_ratio(pay, issued + pay);
            assert(mul_ratio_spec(pay, issued + pay, issued + pay) == pay);
        },
    }
}

/// Orphan rescue: depositing into a pool that holds balance but has no
/// shareholders first returns the whole prior balance to the configured
/// owner; the pool then holds exactly the fresh deposit and the supply
/// grew by exactly the minted shares (one per unit, at the fallback
/// ratio).
pub proof fn lemma_orphan_rescue(
    pre: State,
    post: State,
    msgs: Seq<TransferMsg>,
    sender: u64,
    funds: Seq<Coin>,
    height: u64,
)
    requires
        pre.wf(),
        pre.pool > 0,
        pre.supply.issued == 0,
        add_post(pre, post, Ok(msgs), sender, funds, height),
    ensures
        msgs =~= seq![TransferMsg::Native { to: pre.config.owner, amount: pre.pool }],
        post.pool == funds[0].amount,
        post.supply.issued == pre.supply.issued + funds[0].amount,
{
    let pay = funds[0].amount as int;
    lemma_mul_one(pay);
    match add_spec(pre, sender, pay) {
        Err(_) => {
            assert(false);
        },
        Ok(v) => {
            assert(v.rescue_amount == pre.pool);
            assert(v.minted == pay);
            assert(v.pool2 == pay);
        },
    }
}

/// Idempotent no-op failure: settling with nothing claimable fails with
/// the state error `NothingToClaim` and leaves the whole ledger unchanged.
pub proof fn lemma_claim_zero_noop(
    pre: State,
    post: State,
    r: Result<Seq<TransferMsg>, ContractError>,
    sender: u64,
    funds: Seq<Coin>,
)
    requires
        pre.wf(),
        funds.len() == 0,
        pre.claimable@[sender] == 0,
        claim_post(pre, post, r, sender, funds),
    ensures
        r == Err::<Seq<TransferMsg>, ContractError>(ContractError::NothingToClaim),
        post == pre,
        is_state_error(ContractError::NothingToClaim),
{
    assert(claim_spec(pre, sender) == Err::<crate::contract::ClaimVals, ContractError>(
        ContractError::NothingToClaim,
    ));
    match r {
        Ok(_) => {
            assert(false);
        },
        Err(e) => {
            if e == ContractError::Payment(crate::error::PaymentFailure::NonPayable) {
                assert(false);
            }
            assert(claim_spec(pre, sender) == Err::<crate::contract::ClaimVals, ContractError>(e));
        },
    }
}

} // verus!
