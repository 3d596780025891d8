//! The ledger: configuration, share supply, pool balance, per-owner
//! accounts and the order queue, held as one explicit value that every
//! operation receives.  The host commits or discards it at call boundaries.

use vstd::prelude::*;
use std::collections::HashMap;
use crate::queue::{OrderQueue, NodeWithId, contains_id, idx_of};

verus! {

broadcast use vstd::std_specs::hash::group_hash_axioms;

/// Static configuration; set at creation, owner-mutable for the fee only.
pub struct ConfigInfo {
    /// Admin account; may change the fee and receives orphaned balance.
    pub owner: u64,
    /// The one denomination accepted for payments.
    pub bond_denom: String,
    /// Account of the target-asset (liquid token) contract.
    pub liquid_token_addr: u64,
    /// Account of the external ratio source.
    pub staking_manager_addr: u64,
    /// Conversion fee in basis points of the request amount.
    pub swap_fee: u128,
}

/// Outstanding shares and reserved claims.
pub struct Supply {
    /// Total outstanding ownership shares.
    pub issued: u128,
    /// Total target-asset amount reserved for pending claims.
    pub claims: u128,
}

/// Per-owner amounts, total over all account ids with 0 as the default.
pub struct Accounts {
    m: HashMap<u64, u128>,
}

impl View for Accounts {
    type V = Map<u64, u128>;

    closed spec fn view(&self) -> Map<u64, u128> {
        Map::new(
            |o: u64| true,
            |o: u64|
                if self.m@.contains_key(o) {
                    self.m@[o]
                } else {
                    0u128
                },
        )
    }
}

impl Accounts {
    /// All amounts start at zero.
    pub fn new() -> (r: Accounts)
        ensures
            forall|o: u64| r@[o] == 0u128,
    {
        Accounts { m: HashMap::new() }
    }

    /// The amount recorded for `o`.
    pub fn amount_of(&self, o: u64) -> (r: u128)
        ensures
            r == self@[o],
    {
        match self.m.get(&o) {
            Some(v) => *v,
            None => 0,
        }
    }

    /// Overwrites the amount recorded for `o`.
    pub fn set_amount(&mut self, o: u64, v: u128)
        ensures
            final(self)@ =~= old(self)@.insert(o, v),
    {
        self.m.insert(o, v);
        proof {
            assert forall|x: u64| self@[x] == old(self)@.insert(o, v)[x] by {}
        }
    }

    /// A scratch copy with the same amounts.
    pub fn duplicate(&self) -> (r: Accounts)
        ensures
            r@ =~= self@,
    {
        Accounts { m: self.m.clone() }
    }
}

/// Per-owner active queue node ids, total with 0 (no node) as the default.
pub struct ActiveIds {
    m: HashMap<u64, u64>,
}

impl View for ActiveIds {
    type V = Map<u64, u64>;

    closed spec fn view(&self) -> Map<u64, u64> {
        Map::new(
            |o: u64| true,
            |o: u64|
                if self.m@.contains_key(o) {
                    self.m@[o]
                } else {
                    0u64
                },
        )
    }
}

impl ActiveIds {
    /// No owner has an active node.
    pub fn new() -> (r: ActiveIds)
        ensures
            forall|o: u64| r@[o] == 0u64,
    {
        ActiveIds { m: HashMap::new() }
    }

    /// The active node id of `o`, 0 for none.
    pub fn id_of(&self, o: u64) -> (r: u64)
        ensures
            r == self@[o],
    {
        match self.m.get(&o) {
            Some(v) => *v,
            None => 0,
        }
    }

    /// Records `id` as the active node of `o` (0 to clear).
    pub fn set_id(&mut self, o: u64, id: u64)
        ensures
            final(self)@ =~= old(self)@.insert(o, id),
    {
        self.m.insert(o, id);
        proof {
            assert forall|x: u64| self@[x] == old(self)@.insert(o, id)[x] by {}
        }
    }

    /// A scratch copy with the same references.
    pub fn duplicate(&self) -> (r: ActiveIds)
        ensures
            r@ =~= self@,
    {
        ActiveIds { m: self.m.clone() }
    }
}

/// The whole ledger.
pub struct State {
    pub config: ConfigInfo,
    pub supply: Supply,
    /// Base asset held by the pool.
    pub pool: u128,
    pub queue: OrderQueue,
    /// Target-asset amounts owed, paid out in full on settlement.
    pub claimable: Accounts,
    /// Base-asset reward amounts owed, accrued during matching.
    pub unclaimed: Accounts,
    /// Each owner's currently active queue node.
    pub active: ActiveIds,
}

/// Sum of the shares attributed to the nodes of `s`.
pub open spec fn sum_values(s: Seq<NodeWithId>) -> int
    decreases s.len(),
{
    if s.len() == 0 {
        0
    } else {
        sum_values(s.drop_last()) + s.last().value
    }
}

pub proof fn lemma_sum_push(s: Seq<NodeWithId>, x: NodeWithId)
    ensures
        sum_values(s.push(x)) == sum_values(s) + x.value,
{
    assert(s.push(x).drop_last() =~= s);
    assert(s.push(x).last() == x);
}

pub proof fn lemma_sum_remove(s: Seq<NodeWithId>, k: int)
    requires
        0 <= k < s.len(),
    ensures
        sum_values(s.remove(k)) == sum_values(s) - s[k].value,
    decreases s.len(),
{
    if k == s.len() - 1 {
        assert(s.remove(k) =~= s.drop_last());
    } else {
        lemma_sum_remove(s.drop_last(), k);
        assert(s.remove(k).drop_last() =~= s.drop_last().remove(k));
        assert(s.remove(k).last() == s.last());
    }
}

pub proof fn lemma_sum_update(s: Seq<NodeWithId>, k: int, x: NodeWithId)
    requires
        0 <= k < s.len(),
    ensures
        sum_values(s.update(k, x)) == sum_values(s) - s[k].value + x.value,
    decreases s.len(),
{
    if k == s.len() - 1 {
        assert(s.update(k, x).drop_last() =~= s.drop_last());
        assert(s.update(k, x).last() == x);
    } else {
        lemma_sum_update(s.drop_last(), k, x);
        assert(s.update(k, x).drop_last() =~= s.drop_last().update(k, x));
        assert(s.update(k, x).last() == s.last());
    }
}

pub proof fn lemma_sum_drop_first(s: Seq<NodeWithId>)
    requires
        s.len() > 0,
    ensures
        sum_values(s.drop_first()) == sum_values(s) - s[0].value,
{
    lemma_sum_remove(s, 0);
    assert(s.remove(0) =~= s.drop_first());
}

/// Queue and back-references are mutually consistent: every live node is
/// its owner's unique active node, and every nonzero active-node reference
/// points at a live node of that owner.
pub open spec fn queue_active_ok(q: Seq<NodeWithId>, act: Map<u64, u64>) -> bool {
    &&& (forall|k: int| 0 <= k < q.len() ==> act[(#[trigger] q[k]).owner] == q[k].id)
    &&& (forall|o: u64|
        (#[trigger] act[o]) != 0 ==> contains_id(q, act[o]) && q[idx_of(q, act[o])].owner == o)
}

/// Consuming the head keeps queue and back-references consistent, once the
/// head owner's reference is cleared.
pub proof fn lemma_qa_drop_head(q: Seq<NodeWithId>, act: Map<u64, u64>)
    requires
        queue_active_ok(q, act),
        q.len() > 0,
        forall|k: int, l: int| 0 <= k < l < q.len() ==> #[trigger] q[k].id != #[trigger] q[l].id,
    ensures
        queue_active_ok(q.drop_first(), act.insert(q[0].owner, 0u64)),
{
    let q2 = q.drop_first();
    let act2 = act.insert(q[0].owner, 0u64);
    assert forall|k: int| 0 <= k < q2.len() implies act2[(#[trigger] q2[k]).owner] == q2[k].id by {
        assert(q2[k] == q[k + 1]);
        assert(act[q[k + 1].owner] == q[k + 1].id);
        if q[k + 1].owner == q[0].owner {
            assert(act[q[0].owner] == q[0].id);
            assert(q[k + 1].id == q[0].id);
            assert(false);
        }
    }
    assert forall|o: u64| (#[trigger] act2[o]) != 0 implies contains_id(q2, act2[o])
        && q2[idx_of(q2, act2[o])].owner == o by {
        assert(o != q[0].owner);
        let id0 = act[o];
        let m0 = idx_of(q, id0);
        assert(contains_id(q, id0));
        assert(q[m0].owner == o);
        assert(m0 != 0);
        assert(q2[m0 - 1] == q[m0]);
        assert(contains_id(q2, id0));
        let m1 = idx_of(q2, id0);
        assert(0 <= m1 < q2.len() && q2[m1].id == id0);
        assert(q2[m1] == q[m1 + 1]);
        assert(q[m1 + 1].id == id0 && q[m0].id == id0);
        if m1 + 1 != m0 {
            if m1 + 1 < m0 {
                assert(q[m1 + 1].id != q[m0].id);
            } else {
                assert(q[m0].id != q[m1 + 1].id);
            }
            assert(false);
        }
    }
}

/// Rewriting one node in place, keeping its id and owner, keeps queue and
/// back-references consistent.
pub proof fn lemma_qa_update(q: Seq<NodeWithId>, act: Map<u64, u64>, m: int, nd: NodeWithId)
    requires
        queue_active_ok(q, act),
        0 <= m < q.len(),
        nd.id == q[m].id,
        nd.owner == q[m].owner,
        forall|k: int, l: int| 0 <= k < l < q.len() ==> #[trigger] q[k].id != #[trigger] q[l].id,
    ensures
        queue_active_ok(q.update(m, nd), act),
{
    let q2 = q.update(m, nd);
    assert forall|k: int| 0 <= k < q2.len() implies act[(#[trigger] q2[k]).owner] == q2[k].id by {
        if k != m {
            assert(q2[k] == q[k]);
        }
        assert(act[q[k].owner] == q[k].id);
    }
    assert forall|o: u64| (#[trigger] act[o]) != 0 implies contains_id(q2, act[o])
        && q2[idx_of(q2, act[o])].owner == o by {
        let id0 = act[o];
        let m0 = idx_of(q, id0);
        assert(contains_id(q, id0));
        assert(q[m0].owner == o);
        assert(q2[m0].id == id0 && q2[m0].owner == o);
        assert(contains_id(q2, id0));
        let m1 = idx_of(q2, id0);
        assert(0 <= m1 < q2.len() && q2[m1].id == id0);
        assert(q[m1].id == id0 && q[m0].id == id0);
        if m1 != m0 {
            if m1 < m0 {
                assert(q[m1].id != q[m0].id);
            } else {
                assert(q[m0].id != q[m1].id);
            }
            assert(false);
        }
    }
}

impl State {
    /// Queue, header and back-references are mutually consistent.
    pub open spec fn wf(self) -> bool {
        &&& self.queue.wf()
        &&& queue_active_ok(self.queue@, self.active@)
    }

    /// The shares attributed to live nodes add up to the issued supply.
    pub open spec fn conserved(self) -> bool {
        sum_values(self.queue@) == self.supply.issued
    }

    /// Every live node's share value equals its remaining principal.
    pub open spec fn uniform(self) -> bool {
        forall|k: int|
            0 <= k < self.queue@.len() ==> (#[trigger] self.queue@[k]).value
                == self.queue@[k].last_deposit
    }

    /// The invariant that holds in every state reachable from a fresh
    /// ledger: conservation, uniform node values, and a pool balance equal
    /// to the issued supply.
    pub open spec fn balanced(self) -> bool {
        self.conserved() && self.uniform() && self.pool == self.supply.issued
    }
}

} // verus!
