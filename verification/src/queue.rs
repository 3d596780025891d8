//! The order queue: a doubly-linked, id-indexed FIFO of pending conversion
//! requests.
//!
//! Nodes live in an arena indexed by id; ids are assigned monotonically and
//! never reused, so the queue order (head to tail) is always the order of
//! strictly increasing ids, which is the insertion order.  The abstract view
//! of a queue is the sequence of its live nodes from head to tail; the
//! `prev`/`next` link graph and the arena are internal.

use vstd::prelude::*;

verus! {

/// One arena slot: a pending request with its intrusive links.
#[derive(Clone, Copy, Debug)]
pub struct OrderNode {
    /// Account the request belongs to.
    pub owner: u64,
    /// Shares currently attributed to this node.
    pub value: u128,
    /// Base-asset principal this node's value traces back to.
    pub last_deposit: u128,
    /// Block height at creation, informational.
    pub height: u64,
    /// Id of the previous node towards the head, 0 for none.
    pub prev: u64,
    /// Id of the next node towards the tail, 0 for none.
    pub next: u64,
}

/// A live node as seen from outside: its id and payload, without links.
#[derive(Clone, Copy, Debug, PartialEq, Eq, Structural)]
pub struct NodeWithId {
    pub id: u64,
    pub owner: u64,
    pub value: u128,
    pub last_deposit: u128,
    pub height: u64,
}

/// Whether some node of `s` carries id `id`.
pub open spec fn contains_id(s: Seq<NodeWithId>, id: u64) -> bool {
    exists|k: int| 0 <= k < s.len() && s[k].id == id
}

/// Position of the node with id `id` in `s` (meaningful when `contains_id`).
pub open spec fn idx_of(s: Seq<NodeWithId>, id: u64) -> int {
    choose|k: int| 0 <= k < s.len() && s[k].id == id
}

/// Relies on `Vec::clone` of the standard library: the clone holds the
/// same elements (they are plain copyable records).
#[verifier::external_body]
fn clone_nodes(v: &Vec<Option<OrderNode>>) -> (r: Vec<Option<OrderNode>>)
    ensures
        r@ == v@,
{
    v.clone()
}

/// The doubly-linked FIFO.
pub struct OrderQueue {
    nodes: Vec<Option<OrderNode>>,
    head_id: u64,
    tail_id: u64,
    length: u64,
    ids: Ghost<Seq<u64>>,
}

impl View for OrderQueue {
    type V = Seq<NodeWithId>;

    closed spec fn view(&self) -> Seq<NodeWithId> {
        Seq::new(
            self.ids@.len(),
            |k: int|
                NodeWithId {
                    id: self.ids@[k],
                    owner: self.nodes@[self.ids@[k] - 1].unwrap().owner,
                    value: self.nodes@[self.ids@[k] - 1].unwrap().value,
                    last_deposit: self.nodes@[self.ids@[k] - 1].unwrap().last_deposit,
                    height: self.nodes@[self.ids@[k] - 1].unwrap().height,
                },
        )
    }
}

impl OrderQueue {
    /// Number of arena slots ever allocated (live and removed).
    pub closed spec fn arena_len(self) -> int {
        self.nodes@.len() as int
    }

    /// The id the next appended node will receive.
    pub closed spec fn next_id(self) -> u64 {
        (self.arena_len() + 1) as u64
    }

    spec fn node_at(self, k: int) -> OrderNode {
        self.nodes@[self.ids@[k] - 1].unwrap()
    }

    spec fn entry_ok(self, k: int) -> bool {
        let ids = self.ids@;
        &&& 1 <= ids[k] && ids[k] <= self.nodes@.len()
        &&& self.nodes@[ids[k] - 1] is Some
        &&& self.node_at(k).last_deposit >= 1
        &&& self.node_at(k).prev == (if k == 0 {
            0u64
        } else {
            ids[k - 1]
        })
        &&& self.node_at(k).next == (if k == ids.len() - 1 {
            0u64
        } else {
            ids[k + 1]
        })
    }

    /// Internal consistency of header, links and arena.
    pub closed spec fn wf(self) -> bool {
        &&& self.length as int == self.ids@.len()
        &&& self.nodes@.len() + 1 <= u64::MAX
        &&& (forall|k: int| 0 <= k < self.ids@.len() ==> #[trigger] self.entry_ok(k))
        &&& (forall|k: int, l: int|
            0 <= k < l < self.ids@.len() ==> #[trigger] self.ids@[k] < #[trigger] self.ids@[l])
        &&& (if self.ids@.len() == 0 {
            self.head_id == 0 && self.tail_id == 0
        } else {
            self.head_id == self.ids@[0] && self.tail_id == self.ids@[self.ids@.len() - 1]
        })
        &&& (forall|j: int|
            0 <= j < self.nodes@.len() ==> ((#[trigger] self.nodes@[j]) is Some <==> self.ids@
                .contains((j + 1) as u64)))
    }

    /// There is room to allocate one more id.
    pub open spec fn can_append(self) -> bool {
        self.arena_len() + 2 <= u64::MAX && self.arena_len() + 1 <= usize::MAX
    }

    /// Every live node's id is at least 1 and below the next id, and ids
    /// strictly increase from head to tail (insertion order).
    pub proof fn lemma_view_ids(self)
        requires
            self.wf(),
        ensures
            forall|k: int|
                0 <= k < self@.len() ==> 1 <= (#[trigger] self@[k].id)
                    < self.next_id(),
            forall|k: int, l: int|
                0 <= k < l < self@.len() ==> #[trigger] self@[k].id < #[trigger] self@[l].id,
            self@.len() <= self.arena_len(),
            self.next_id() >= 1,
            forall|k: int| 0 <= k < self@.len() ==> (#[trigger] self@[k]).last_deposit >= 1,
    {
        assert forall|k: int| 0 <= k < self@.len() implies (#[trigger] self@[k]).last_deposit
            >= 1 by {
            assert(self.entry_ok(k));
        }
        assert forall|k: int| 0 <= k < self@.len() implies 1 <= (#[trigger] self@[k].id)
            < self.next_id() by {
            assert(self.entry_ok(k));
            assert(self@[k].id == self.ids@[k]);
        }
        assert forall|k: int, l: int| 0 <= k < l < self@.len() implies #[trigger] self@[k].id
            < #[trigger] self@[l].id by {
            assert(self.ids@[k] < self.ids@[l]);
            assert(self@[k].id == self.ids@[k] && self@[l].id == self.ids@[l]);
        }
        self.lemma_len_le_arena();
    }

    proof fn lemma_lower_bound(self, k: int)
        requires
            self.wf(),
            0 <= k < self.ids@.len(),
        ensures
            self.ids@[k] >= k + 1,
        decreases k,
    {
        assert(self.entry_ok(k));
        if k > 0 {
            self.lemma_lower_bound(k - 1);
            assert(self.ids@[k - 1] < self.ids@[k]);
        }
    }

    proof fn lemma_len_le_arena(self)
        requires
            self.wf(),
        ensures
            self.ids@.len() <= self.arena_len(),
    {
        if self.ids@.len() > 0 {
            let last = self.ids@.len() - 1;
            self.lemma_lower_bound(last);
            assert(self.entry_ok(last));
        }
    }

    /// A scratch copy of the whole queue.
    pub fn duplicate(&self) -> (q: OrderQueue)
        ensures
            q@ =~= self@,
            self.wf() ==> q.wf(),
            q.arena_len() == self.arena_len(),
            q.next_id() == self.next_id(),
    {
        let q = OrderQueue {
            nodes: clone_nodes(&self.nodes),
            head_id: self.head_id,
            tail_id: self.tail_id,
            length: self.length,
            ids: Ghost(self.ids@),
        };
        proof {
            assert(q.nodes@ =~= self.nodes@);
            if self.wf() {
                assert forall|k: int| 0 <= k < q.ids@.len() implies #[trigger] q.entry_ok(k) by {
                    assert(self.entry_ok(k));
                }
                assert forall|j: int| 0 <= j < q.nodes@.len() implies ((#[trigger] q.nodes@[j])
                    is Some <==> q.ids@.contains((j + 1) as u64)) by {
                    assert(self.nodes@[j] is Some <==> self.ids@.contains((j + 1) as u64));
                }
                assert(q.wf());
            }
            assert forall|k: int| 0 <= k < q@.len() implies q@[k] == self@[k] by {}
        }
        q
    }

    /// An empty queue.
    pub fn new() -> (q: OrderQueue)
        ensures
            q.wf(),
            q@ =~= Seq::<NodeWithId>::empty(),
            q.arena_len() == 0,
    {
        OrderQueue {
            nodes: Vec::new(),
            head_id: 0,
            tail_id: 0,
            length: 0,
            ids: Ghost(Seq::empty()),
        }
    }

    /// Number of pending nodes.
    pub fn len(&self) -> (n: u64)
        requires
            self.wf(),
        ensures
            n == self@.len(),
    {
        self.length
    }

    /// Number of arena slots ever allocated; ids up to this value have
    /// been handed out.
    pub fn allocated(&self) -> (n: usize)
        ensures
            n == self.arena_len(),
    {
        self.nodes.len()
    }

    /// Id of the head node, 0 when the queue is empty.
    pub fn head_id(&self) -> (id: u64)
        requires
            self.wf(),
        ensures
            id == (if self@.len() == 0 {
                0u64
            } else {
                self@[0].id
            }),
    {
        self.head_id
    }

    /// Id of the tail node, 0 when the queue is empty.
    pub fn tail_id(&self) -> (id: u64)
        requires
            self.wf(),
        ensures
            id == (if self@.len() == 0 {
                0u64
            } else {
                self@[self@.len() - 1].id
            }),
    {
        self.tail_id
    }

    /// Allocates the next id and links a fresh node as the new tail.
    pub fn append(&mut self, owner: u64, value: u128, last_deposit: u128, height: u64) -> (id: u64)
        requires
            old(self).wf(),
            old(self).can_append(),
            last_deposit >= 1,
        ensures
            final(self).wf(),
            id == old(self).next_id(),
            final(self)@ =~= old(self)@.push(
                NodeWithId { id, owner, value, last_deposit, height },
            ),
            final(self).arena_len() == old(self).arena_len() + 1,
            forall|k: int| 0 <= k < old(self)@.len() ==> (#[trigger] old(self)@[k].id) < id,
    {
        proof {
            old(self).lemma_view_ids();
        }
        let prev_id = self.tail_id;
        let id_usize = self.nodes.len() + 1;
        let id = id_usize as u64;
        if self.length == 0 {
            self.head_id = id;
        } else {
            proof {
                assert(old(self).entry_ok(old(self).ids@.len() - 1));
            }
            let ti = (self.tail_id - 1) as usize;
            let mut tn = self.nodes[ti].unwrap();
            tn.next = id;
            self.nodes.set(ti, Some(tn));
        }
        self.nodes.push(
            Some(OrderNode { owner, value, last_deposit, height, prev: prev_id, next: 0 }),
        );
        self.tail_id = id;
        proof {
            old(self).lemma_len_le_arena();
        }
        self.length = self.length + 1;
        proof {
            self.ids@ = old(self).ids@.push(id);
        }
        proof {
            let pre = *old(self);
            let n = pre.ids@.len() as int;
            assert forall|k: int| 0 <= k < self.ids@.len() implies #[trigger] self.entry_ok(k) by {
                if k < n {
                    assert(pre.entry_ok(k));
                    if k > 0 {
                        assert(pre.entry_ok(k - 1));
                    }
                    if k < n - 1 {
                        assert(pre.entry_ok(k + 1));
                    }
                }
                if n > 0 {
                    assert(pre.entry_ok(n - 1));
                }
            }
            assert forall|k: int, l: int| 0 <= k < l < self.ids@.len() implies #[trigger] self
                .ids@[k] < #[trigger] self.ids@[l] by {
                if l < n {
                } else {
                    if k < n {
                        assert(pre.entry_ok(k));
                    }
                }
            }
            assert forall|j: int| 0 <= j < self.nodes@.len() implies ((#[trigger] self.nodes@[j])
                is Some <==> self.ids@.contains((j + 1) as u64)) by {
                if j < self.nodes@.len() - 1 {
                    if pre.nodes@[j] is Some {
                        let k = choose|k: int|
                            0 <= k < pre.ids@.len() && pre.ids@[k] == (j + 1) as u64;
                        assert(pre.ids@.contains((j + 1) as u64));
                        assert(self.ids@[k] == (j + 1) as u64);
                        assert(self.nodes@[j] is Some);
                    } else {
                        assert(!pre.ids@.contains((j + 1) as u64));
                        if self.ids@.contains((j + 1) as u64) {
                            let k = choose|k: int|
                                0 <= k < self.ids@.len() && self.ids@[k] == (j + 1) as u64;
                            assert(k == n);
                            assert((j + 1) as u64 == id);
                            assert(false);
                        }
                    }
                } else {
                    assert(self.ids@[n] == id);
                    assert(self.ids@.contains((j + 1) as u64));
                }
            }
            assert(self.wf());
            assert forall|k: int| 0 <= k < self@.len() implies self@[k] == pre@.push(
                NodeWithId { id, owner, value, last_deposit, height },
            )[k] by {
                if k < n {
                    assert(pre.entry_ok(k));
                }
            }
        }
        id
    }

    /// The position of `id` is unique once the queue is well-formed.
    pub proof fn lemma_idx_unique(self, id: u64)
        requires
            self.wf(),
            contains_id(self@, id),
        ensures
            0 <= idx_of(self@, id) < self@.len(),
            self@[idx_of(self@, id)].id == id,
            forall|l: int| 0 <= l < self@.len() && (#[trigger] self@[l].id) == id ==> l == idx_of(
                self@,
                id,
            ),
    {
        self.lemma_view_ids();
        let k = idx_of(self@, id);
        assert(0 <= k < self@.len() && self@[k].id == id);
        assert forall|l: int|
            0 <= l < self@.len() && (#[trigger] self@[l].id) == id implies l == k by {
            if l < k {
                assert(self@[l].id < self@[k].id);
            }
            if l > k {
                assert(self@[k].id < self@[l].id);
            }
        }
    }

    /// The payload of the live node with id `id`, if any.
    pub fn get_info(&self, id: u64) -> (r: Option<NodeWithId>)
        requires
            self.wf(),
        ensures
            match r {
                Some(info) => contains_id(self@, id) && info == self@[idx_of(self@, id)],
                None => !contains_id(self@, id),
            },
    {
        proof {
            self.lemma_view_ids();
        }
        if id == 0 || id > self.nodes.len() as u64 {
            proof {
                if contains_id(self@, id) {
                    let k = idx_of(self@, id);
                    assert(self@[k].id == id);
                    assert(self.entry_ok(k));
                }
            }
            return None;
        }
        let i = (id - 1) as usize;
        match self.nodes[i] {
            Some(nd) => {
                proof {
                    assert(self.nodes@[i as int] is Some);
                    assert(self.ids@.contains(id));
                    let k = choose|k: int| 0 <= k < self.ids@.len() && self.ids@[k] == id;
                    assert(self@[k].id == id);
                    assert(contains_id(self@, id));
                    self.lemma_idx_unique(id);
                    assert(idx_of(self@, id) == k);
                    assert(self.entry_ok(k));
                }
                Some(
                    NodeWithId {
                        id,
                        owner: nd.owner,
                        value: nd.value,
                        last_deposit: nd.last_deposit,
                        height: nd.height,
                    },
                )
            },
            None => {
                proof {
                    if contains_id(self@, id) {
                        let k = idx_of(self@, id);
                        assert(self@[k].id == id);
                        assert(self.entry_ok(k));
                    }
                }
                None
            },
        }
    }

    /// The head node; the queue must not be empty.
    pub fn head(&self) -> (r: NodeWithId)
        requires
            self.wf(),
            self@.len() > 0,
        ensures
            r == self@[0],
    {
        proof {
            assert(self.entry_ok(0));
        }
        let n = self.nodes.len();
        proof {
            assert(1 <= self.head_id && self.head_id <= n);
        }
        let i = (self.head_id - 1) as usize;
        let nd = self.nodes[i].unwrap();
        NodeWithId {
            id: self.head_id,
            owner: nd.owner,
            value: nd.value,
            last_deposit: nd.last_deposit,
            height: nd.height,
        }
    }

    /// Unlinks node `id` from wherever it stands and frees its slot.
    #[verifier::rlimit(100)]
    pub fn remove(&mut self, id: u64)
        requires
            old(self).wf(),
            contains_id(old(self)@, id),
        ensures
            final(self).wf(),
            final(self)@ =~= old(self)@.remove(idx_of(old(self)@, id)),
            final(self).arena_len() == old(self).arena_len(),
            final(self).next_id() == old(self).next_id(),
    {
        proof {
            old(self).lemma_view_ids();
            old(self).lemma_idx_unique(id);
        }
        let ghost pre = *old(self);
        let ghost k = idx_of(pre@, id);
        proof {
            assert(pre@[k].id == pre.ids@[k]);
            assert(pre.ids@[k] == id);
            assert(pre.entry_ok(k));
            if k > 0 {
                assert(pre.entry_ok(k - 1));
            }
            if k < pre.ids@.len() - 1 {
                assert(pre.entry_ok(k + 1));
            }
        }
        let n_arena = self.nodes.len();
        proof {
            assert(1 <= id && id <= n_arena);
            if k > 0 {
                assert(1 <= pre.ids@[k - 1] && pre.ids@[k - 1] <= n_arena);
            }
            if k < pre.ids@.len() - 1 {
                assert(1 <= pre.ids@[k + 1] && pre.ids@[k + 1] <= n_arena);
            }
        }
        let i = (id - 1) as usize;
        let nd = self.nodes[i].unwrap();
        if nd.prev == 0 {
            self.head_id = nd.next;
        } else {
            let pi = (nd.prev - 1) as usize;
            let mut pn = self.nodes[pi].unwrap();
            pn.next = nd.next;
            self.nodes.set(pi, Some(pn));
        }
        if nd.next == 0 {
            self.tail_id = nd.prev;
        } else {
            let ni = (nd.next - 1) as usize;
            let mut nn = self.nodes[ni].unwrap();
            nn.prev = nd.prev;
            self.nodes.set(ni, Some(nn));
        }
        self.nodes.set(i, None);
        self.length = self.length - 1;
        proof {
            self.ids@ = pre.ids@.remove(k);
        }
        proof {
            let n = pre.ids@.len() as int;
            if k > 0 {
                assert(nd.prev == pre.ids@[k - 1]);
            }
            if k < n - 1 {
                assert(nd.next == pre.ids@[k + 1]);
            }
            Self::lemma_remove_ok(pre, *self, k, id, nd);
        }
    }

    /// After unlinking position `k`, a slot is live exactly when its id is
    /// still listed.
    #[verifier::rlimit(100)]
    proof fn lemma_remove_contains(pre: Self, post: Self, k: int, id: u64)
        requires
            pre.wf(),
            0 <= k < pre.ids@.len(),
            pre.ids@[k] == id,
            post.ids@ == pre.ids@.remove(k),
            post.nodes@.len() == pre.nodes@.len(),
            post.nodes@[id - 1] is None,
            forall|j: int|
                0 <= j < pre.nodes@.len() && j != id - 1 ==> ((#[trigger] post.nodes@[j]) is Some
                    <==> pre.nodes@[j] is Some),
        ensures
            forall|j: int|
                0 <= j < post.nodes@.len() ==> ((#[trigger] post.nodes@[j]) is Some <==> post.ids@
                    .contains((j + 1) as u64)),
    {
        assert(pre.entry_ok(k));
        assert forall|j: int| 0 <= j < post.nodes@.len() implies ((#[trigger] post.nodes@[j])
            is Some <==> post.ids@.contains((j + 1) as u64)) by {
            if j == id - 1 {
                if post.ids@.contains((j + 1) as u64) {
                    let m = choose|m: int|
                        0 <= m < post.ids@.len() && post.ids@[m] == (j + 1) as u64;
                    let m0 = if m < k {
                        m
                    } else {
                        m + 1
                    };
                    assert(pre.ids@[m0] == id);
                    assert(m0 != k);
                    assert(pre.ids@[k] == pre.ids@[m0] && k != m0);
                    assert(false);
                }
            } else {
                if pre.nodes@[j] is Some {
                    let m0 = choose|m0: int|
                        0 <= m0 < pre.ids@.len() && pre.ids@[m0] == (j + 1) as u64;
                    assert(pre.ids@.contains((j + 1) as u64));
                    assert(m0 != k);
                    let m = if m0 < k {
                        m0
                    } else {
                        m0 - 1
                    };
                    assert(post.ids@[m] == (j + 1) as u64);
                    assert(post.ids@.contains((j + 1) as u64));
                    assert(post.nodes@[j] is Some);
                } else {
                    assert(!pre.ids@.contains((j + 1) as u64));
                    if post.ids@.contains((j + 1) as u64) {
                        let m = choose|m: int|
                            0 <= m < post.ids@.len() && post.ids@[m] == (j + 1) as u64;
                        let m0 = if m < k {
                            m
                        } else {
                            m + 1
                        };
                        assert(pre.ids@[m0] == (j + 1) as u64);
                        assert(pre.ids@.contains((j + 1) as u64));
                        assert(false);
                    }
                }
            }
        }
    }

    /// After unlinking position `k`, the queue is well-formed again and its
    /// view lost exactly that element.
    #[verifier::rlimit(100)]
    proof fn lemma_remove_ok(pre: Self, post: Self, k: int, id: u64, nd: OrderNode)
        requires
            pre.wf(),
            0 <= k < pre.ids@.len(),
            pre.ids@[k] == id,
            nd == pre.nodes@[id - 1].unwrap(),
            post.ids@ == pre.ids@.remove(k),
            post.length == pre.length - 1,
            post.nodes@.len() == pre.nodes@.len(),
            post.nodes@[id - 1] is None,
            k > 0 ==> post.nodes@[pre.ids@[k - 1] - 1] == Some(
                OrderNode { next: nd.next, ..pre.nodes@[pre.ids@[k - 1] - 1].unwrap() },
            ),
            k < pre.ids@.len() - 1 ==> post.nodes@[pre.ids@[k + 1] - 1] == Some(
                OrderNode { prev: nd.prev, ..pre.nodes@[pre.ids@[k + 1] - 1].unwrap() },
            ),
            forall|j: int|
                0 <= j < pre.nodes@.len() && j != id - 1 && (k == 0 || j != pre.ids@[k - 1] - 1)
                    && (k == pre.ids@.len() - 1 || j != pre.ids@[k + 1] - 1)
                    ==> post.nodes@[j] == pre.nodes@[j],
            post.head_id == (if k == 0 {
                nd.next
            } else {
                pre.head_id
            }),
            post.tail_id == (if k == pre.ids@.len() - 1 {
                nd.prev
            } else {
                pre.tail_id
            }),
        ensures
            post.wf(),
            post@ =~= pre@.remove(k),
    {
        let n = pre.ids@.len() as int;
        assert(pre.entry_ok(k));
        if k > 0 {
            assert(pre.entry_ok(k - 1));
        }
        if k < n - 1 {
            assert(pre.entry_ok(k + 1));
        }
        assert forall|m: int| 0 <= m < post.ids@.len() implies #[trigger] post.entry_ok(m) by {
            if m < k {
                assert(pre.entry_ok(m));
                if m > 0 {
                    assert(pre.entry_ok(m - 1));
                }
                if m + 1 < k {
                    assert(pre.entry_ok(m + 1));
                }
            } else {
                assert(pre.entry_ok(m + 1));
                if m > k {
                    assert(pre.entry_ok(m - 1 + 1));
                }
                if m + 1 < n - 1 {
                    assert(pre.entry_ok(m + 2));
                }
            }
        }
        assert forall|a: int, b: int| 0 <= a < b < post.ids@.len() implies #[trigger] post
            .ids@[a] < #[trigger] post.ids@[b] by {
            let a0 = if a < k {
                a
            } else {
                a + 1
            };
            let b0 = if b < k {
                b
            } else {
                b + 1
            };
            assert(pre.ids@[a0] < pre.ids@[b0]);
        }
        assert forall|j: int|
            0 <= j < pre.nodes@.len() && j != id - 1 implies ((#[trigger] post.nodes@[j])
            is Some <==> pre.nodes@[j] is Some) by {}
        Self::lemma_remove_contains(pre, post, k, id);
        assert(post.wf());
        assert forall|m: int| 0 <= m < post@.len() implies post@[m] == pre@.remove(k)[m] by {
            if m < k {
                assert(pre.entry_ok(m));
                assert(post.entry_ok(m));
            } else {
                assert(pre.entry_ok(m + 1));
                assert(post.entry_ok(m));
            }
        }
    }

    /// Removes the head node; the queue must not be empty.
    pub fn remove_head(&mut self)
        requires
            old(self).wf(),
            old(self)@.len() > 0,
        ensures
            final(self).wf(),
            final(self)@ =~= old(self)@.drop_first(),
            final(self).arena_len() == old(self).arena_len(),
            final(self).next_id() == old(self).next_id(),
    {
        proof {
            assert(old(self).entry_ok(0));
            assert(old(self)@[0].id == old(self).ids@[0]);
            assert(contains_id(old(self)@, old(self).ids@[0]));
            old(self).lemma_idx_unique(old(self).ids@[0]);
        }
        let h = self.head_id;
        self.remove(h);
        proof {
            assert(idx_of(old(self)@, h) == 0);
            assert(self@ =~= old(self)@.remove(0));
            assert(old(self)@.remove(0) =~= old(self)@.drop_first());
        }
    }

    /// In-place mutation of a live node's value and principal; its position
    /// and links are untouched.
    pub fn update_value(&mut self, id: u64, value: u128, last_deposit: u128)
        requires
            old(self).wf(),
            contains_id(old(self)@, id),
            last_deposit >= 1,
        ensures
            final(self).wf(),
            final(self)@ =~= old(self)@.update(
                idx_of(old(self)@, id),
                NodeWithId {
                    id,
                    owner: old(self)@[idx_of(old(self)@, id)].owner,
                    value,
                    last_deposit,
                    height: old(self)@[idx_of(old(self)@, id)].height,
                },
            ),
            final(self).arena_len() == old(self).arena_len(),
            final(self).next_id() == old(self).next_id(),
    {
        proof {
            old(self).lemma_idx_unique(id);
        }
        let ghost pre = *old(self);
        let ghost k = idx_of(pre@, id);
        proof {
            assert(pre@[k].id == pre.ids@[k]);
            assert(pre.entry_ok(k));
        }
        let n_arena = self.nodes.len();
        proof {
            assert(1 <= id && id <= n_arena);
        }
        let i = (id - 1) as usize;
        let mut nd = self.nodes[i].unwrap();
        nd.value = value;
        nd.last_deposit = last_deposit;
        self.nodes.set(i, Some(nd));
        proof {
            assert forall|m: int| 0 <= m < self.ids@.len() implies #[trigger] self.entry_ok(m) by {
                assert(pre.entry_ok(m));
                if pre.ids@[m] != id {
                    assert(self.node_at(m) == pre.node_at(m));
                }
            }
            assert forall|j: int| 0 <= j < self.nodes@.len() implies ((#[trigger] self.nodes@[j])
                is Some <==> self.ids@.contains((j + 1) as u64)) by {
                assert(pre.nodes@[j] is Some <==> pre.ids@.contains((j + 1) as u64));
            }
            assert(self.wf());
            assert forall|m: int| 0 <= m < self@.len() implies self@[m] == pre@.update(
                k,
                NodeWithId {
                    id,
                    owner: pre@[k].owner,
                    value,
                    last_deposit,
                    height: pre@[k].height,
                },
            )[m] by {
                assert(pre.entry_ok(m));
                assert(self.entry_ok(m));
                if m != k {
                    assert(pre.ids@[m] != id);
                }
            }
        }
    }

    /// An ordered, read-only view of up to `limit` nodes starting at the
    /// head.
    pub fn snapshot(&self, limit: u64) -> (r: Vec<NodeWithId>)
        requires
            self.wf(),
        ensures
            r@ =~= self@.take(if limit <= self@.len() {
                limit as int
            } else {
                self@.len() as int
            }),
    {
        let mut r: Vec<NodeWithId> = Vec::new();
        let mut cur: u64 = self.head_id;
        let ghost took = if limit <= self@.len() {
            limit as int
        } else {
            self@.len() as int
        };
        while cur != 0 && (r.len() as u64) < limit
            invariant
                self.wf(),
                r@.len() <= self@.len(),
                r@.len() <= limit,
                r@ =~= self@.take(r@.len() as int),
                cur == (if r@.len() < self@.len() {
                    self@[r@.len() as int].id
                } else {
                    0u64
                }),
            decreases self@.len() - r@.len(),
        {
            proof {
                assert(self.entry_ok(r@.len() as int));
            }
            let n_arena = self.nodes.len();
            proof {
                assert(1 <= cur && cur <= n_arena);
            }
            let i = (cur - 1) as usize;
            let nd = self.nodes[i].unwrap();
            let ghost oldlen = r@.len() as int;
            r.push(
                NodeWithId {
                    id: cur,
                    owner: nd.owner,
                    value: nd.value,
                    last_deposit: nd.last_deposit,
                    height: nd.height,
                },
            );
            cur = nd.next;
            proof {
                assert(r@[oldlen] == self@[oldlen]);
                if oldlen + 1 < self@.len() {
                    assert(self.entry_ok(oldlen));
                }
            }
        }
        proof {
            if cur != 0 {
                assert(r@.len() == limit);
            } else {
                if r@.len() < self@.len() {
                    assert(self.entry_ok(r@.len() as int));
                    assert(false);
                }
                assert(r@.len() == self@.len());
            }
        }
        r
    }
}

} // verus!
