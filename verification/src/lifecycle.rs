//! Who keeps whom alive, and the order of teardown.
//!
//! A queue depends on its port, a receive queue also on its pool, and ports
//! and pools depend on the runtime. A resource lives as long as a handle to
//! it is held or something that depends on it lives; it is torn down when
//! neither holds any more, never before.

use vstd::prelude::*;
use crate::eal::{cleanup_outcome, CleanupOutcome};
use crate::ids::ENOTSUP;
use crate::port::Port;
use crate::queue::{RxQ, TxQ};

verus! {

/// What a resource is.
#[derive(Debug, Clone, Copy, PartialEq, Eq, Structural)]
pub enum ResourceKind {
    /// The runtime itself.
    Runtime,
    /// A port.
    Port(Port),
    /// A buffer pool.
    Pool,
    /// A receive queue.
    RxQueue(RxQ),
    /// A transmit queue.
    TxQueue(TxQ),
}

/// One resource in the ledger.
#[derive(Debug, Clone, Copy, PartialEq, Eq, Structural)]
pub struct Node {
    /// What the resource is.
    pub kind: ResourceKind,
    /// The resource it depends on; only the runtime has none.
    pub first: Option<usize>,
    /// The second resource it depends on: the pool of a receive queue.
    pub second: Option<usize>,
    /// Number of handles to the resource that are held.
    pub handles: usize,
    /// Whether the resource has not been torn down.
    pub alive: bool,
}

/// One resource to tear down.
#[derive(Debug, Clone, Copy, PartialEq, Eq, Structural)]
pub struct Teardown {
    /// Its number in the ledger.
    pub node: usize,
    /// What it is.
    pub kind: ResourceKind,
}

/// Resource `j` depends on resource `i`.
pub open spec fn depends(nodes: Seq<Node>, j: int, i: int) -> bool {
    nodes[j].first == Some(i as usize) || nodes[j].second == Some(i as usize)
}

/// Something keeps resource `i`: a handle, or a living resource that
/// depends on it.
pub open spec fn held(nodes: Seq<Node>, i: int) -> bool {
    nodes[i].handles > 0 || exists|j: int|
        i < j < nodes.len() && nodes[j].alive && #[trigger] depends(nodes, j, i)
}

/// Resource `j` depends on what a resource of its kind depends on: the
/// runtime, number 0, on nothing; a port or a pool on the runtime; a
/// transmit queue on its port; a receive queue on its port and on a pool.
pub open spec fn shaped(nodes: Seq<Node>, j: int) -> bool {
    match nodes[j].kind {
        ResourceKind::Runtime => j == 0 && nodes[j].first.is_none() && nodes[j].second.is_none(),
        ResourceKind::Port(_) => j > 0 && nodes[j].first == Some(0usize)
            && nodes[j].second.is_none(),
        ResourceKind::Pool => j > 0 && nodes[j].first == Some(0usize) && nodes[j].second.is_none(),
        ResourceKind::RxQueue(q) => {
            &&& nodes[j].first matches Some(p)
            &&& 0 < p < j
            &&& nodes[p as int].kind == ResourceKind::Port(q.port)
            &&& nodes[j].second matches Some(m)
            &&& 0 < m < j
            &&& nodes[m as int].kind == ResourceKind::Pool
        },
        ResourceKind::TxQueue(q) => {
            &&& nodes[j].first matches Some(p)
            &&& 0 < p < j
            &&& nodes[p as int].kind == ResourceKind::Port(q.port)
            &&& nodes[j].second.is_none()
        },
    }
}

/// Resource `j` is in order: it has the shape of its kind, and it lives
/// exactly as long as something keeps it.
pub open spec fn node_ok(nodes: Seq<Node>, j: int) -> bool {
    shaped(nodes, j) && (nodes[j].alive <==> held(nodes, j))
}

/// The ledger is in order.
pub open spec fn ledger_ok(nodes: Seq<Node>) -> bool {
    nodes.len() > 0 && forall|j: int| 0 <= j < nodes.len() ==> #[trigger] node_ok(nodes, j)
}

/// `after` is `before` but for the handles of resource `i`, of which there
/// are `by` fewer, and for which resources are alive.
pub open spec fn same_but(before: Seq<Node>, after: Seq<Node>, i: int, by: int) -> bool {
    &&& after.len() == before.len()
    &&& forall|j: int|
        0 <= j < before.len() ==> (#[trigger] after[j]).kind == before[j].kind && after[j].first
            == before[j].first && after[j].second == before[j].second && after[j].handles == (
        if j == i {
            before[j].handles - by
        } else {
            before[j].handles as int
        })
}

/// A living resource keeps what it depends on alive.
pub proof fn law_owner_outlives(nodes: Seq<Node>, j: int, i: int)
    requires
        ledger_ok(nodes),
        0 <= i < j < nodes.len(),
        nodes[j].alive,
        depends(nodes, j, i),
    ensures
        nodes[i].alive,
{
    assert(node_ok(nodes, i));
}

/// A resource to which a handle is held is alive.
pub proof fn law_handle_keeps_alive(nodes: Seq<Node>, i: int)
    requires
        ledger_ok(nodes),
        0 <= i < nodes.len(),
        nodes[i].handles > 0,
    ensures
        nodes[i].alive,
{
    assert(node_ok(nodes, i));
}

/// While any resource lives, the runtime lives: it is torn down last.
pub proof fn law_runtime_outlives_all(nodes: Seq<Node>, j: int)
    requires
        ledger_ok(nodes),
        0 <= j < nodes.len(),
        nodes[j].alive,
    ensures
        nodes[0].alive,
{
    assert(node_ok(nodes, j));
    if j > 0 {
        let p = nodes[j].first.unwrap() as int;
        assert(depends(nodes, j, p));
        law_owner_outlives(nodes, j, p);
        assert(node_ok(nodes, p));
        if p > 0 {
            assert(depends(nodes, p, 0));
            law_owner_outlives(nodes, p, 0);
        }
    }
}

/// The record of every resource and of the handles held to it.
#[derive(Debug)]
pub struct Ledger {
    nodes: Vec<Node>,
}

impl View for Ledger {
    type V = Seq<Node>;

    closed spec fn view(&self) -> Seq<Node> {
        self.nodes@
    }
}

impl Ledger {
    /// The ledger is in order.
    pub open spec fn wf(&self) -> bool {
        ledger_ok(self@)
    }

    /// A ledger that holds the runtime alone, with one handle to it.
    pub fn new() -> (ledger: Ledger)
        ensures
            ledger.wf(),
            ledger@ == seq![
                Node {
                    kind: ResourceKind::Runtime,
                    first: None,
                    second: None,
                    handles: 1,
                    alive: true,
                },
            ],
    {
        let mut nodes: Vec<Node> = Vec::new();
        nodes.push(
            Node { kind: ResourceKind::Runtime, first: None, second: None, handles: 1, alive: true },
        );
        let ledger = Ledger { nodes };
        proof {
            assert(node_ok(ledger@, 0));
        }
        ledger
    }

    /// How many resources the ledger records.
    pub fn len(&self) -> (n: usize)
        ensures
            n == self@.len(),
    {
        self.nodes.len()
    }

    /// The record of resource `i`.
    pub fn node(&self, i: usize) -> (n: Option<Node>)
        ensures
            i < self@.len() ==> n == Some(self@[i as int]),
            i >= self@.len() ==> n.is_none(),
    {
        if i < self.nodes.len() {
            Some(self.nodes[i])
        } else {
            None
        }
    }

    /// Whether resource `i` is recorded and alive.
    pub fn is_alive(&self, i: usize) -> (r: bool)
        ensures
            r == (i < self@.len() && self@[i as int].alive),
    {
        i < self.nodes.len() && self.nodes[i].alive
    }

    /// Whether a living resource depends on resource `i`.
    fn has_live_dependant(&self, i: usize) -> (r: bool)
        requires
            i < self@.len(),
        ensures
            r == exists|j: int|
                i < j < self@.len() && self@[j].alive && #[trigger] depends(self@, j, i as int),
    {
        let len = self.nodes.len();
        let mut j: usize = i + 1;
        while j < len
            invariant
                i < j <= len,
                len == self.nodes.len(),
                forall|k: int|
                    i < k < j ==> !(self@[k].alive && #[trigger] depends(self@, k, i as int)),
            decreases len - j,
        {
            let n = &self.nodes[j];
            let on_first = match n.first {
                Some(p) => p == i,
                None => false,
            };
            let on_second = match n.second {
                Some(p) => p == i,
                None => false,
            };
            if n.alive && (on_first || on_second) {
                assert(depends(self@, j as int, i as int));
                return true;
            }
            j += 1;
        }
        false
    }

    /// Records a new resource with one handle to it.
    fn register(&mut self, kind: ResourceKind, first: usize, second: Option<usize>) -> (i: usize)
        requires
            old(self).wf(),
            first < old(self)@.len(),
            old(self)@[first as int].alive,
            second matches Some(m) ==> m < old(self)@.len() && old(self)@[m as int].alive,
            shaped(
                old(self)@.push(
                    Node { kind, first: Some(first), second, handles: 1, alive: true },
                ),
                old(self)@.len() as int,
            ),
        ensures
            final(self).wf(),
            i == old(self)@.len(),
            final(self)@ == old(self)@.push(
                Node { kind, first: Some(first), second, handles: 1, alive: true },
            ),
    {
        let i = self.nodes.len();
        let ghost before = self@;
        self.nodes.push(Node { kind, first: Some(first), second, handles: 1, alive: true });
        proof {
            let after = self@;
            assert forall|j: int| 0 <= j < after.len() implies #[trigger] node_ok(after, j) by {
                if j < before.len() {
                    assert(node_ok(before, j));
                    assert(after[j] == before[j]);
                    if before[j].first.is_some() {
                        let p = before[j].first.unwrap() as int;
                        assert(after[p] == before[p]);
                    }
                    if before[j].second.is_some() {
                        let m = before[j].second.unwrap() as int;
                        assert(after[m] == before[m]);
                    }
                    if held(before, j) && before[j].handles == 0 {
                        let d = choose|d: int|
                            j < d < before.len() && before[d].alive && #[trigger] depends(
                                before,
                                d,
                                j,
                            );
                        assert(depends(after, d, j));
                    }
                    if held(after, j) && after[j].handles == 0 {
                        let d = choose|d: int|
                            j < d < after.len() && after[d].alive && #[trigger] depends(after, d, j);
                        if d < before.len() {
                            assert(depends(before, d, j));
                        }
                    }
                }
            }
        }
        i
    }

    /// Records a port that has been opened, with one handle to it. `None`,
    /// and nothing recorded, where the runtime is no longer alive.
    pub fn open_port(&mut self, port: Port) -> (r: Option<usize>)
        requires
            old(self).wf(),
        ensures
            final(self).wf(),
            match r {
                Some(i) => old(self)@[0].alive && i == old(self)@.len() && final(self)@ == old(
                    self,
                )@.push(
                    Node {
                        kind: ResourceKind::Port(port),
                        first: Some(0usize),
                        second: None,
                        handles: 1,
                        alive: true,
                    },
                ),
                None => !old(self)@[0].alive && final(self)@ == old(self)@,
            },
    {
        if !self.nodes[0].alive {
            return None;
        }
        Some(self.register(ResourceKind::Port(port), 0, None))
    }

    /// Records a pool that has been created, with one handle to it. `None`,
    /// and nothing recorded, where the runtime is no longer alive.
    pub fn create_pool(&mut self) -> (r: Option<usize>)
        requires
            old(self).wf(),
        ensures
            final(self).wf(),
            match r {
                Some(i) => old(self)@[0].alive && i == old(self)@.len() && final(self)@ == old(
                    self,
                )@.push(
                    Node {
                        kind: ResourceKind::Pool,
                        first: Some(0usize),
                        second: None,
                        handles: 1,
                        alive: true,
                    },
                ),
                None => !old(self)@[0].alive && final(self)@ == old(self)@,
            },
    {
        if !self.nodes[0].alive {
            return None;
        }
        Some(self.register(ResourceKind::Pool, 0, None))
    }

    /// Whether resource `i` is the living port `port`.
    pub open spec fn live_port(&self, i: usize, port: Port) -> bool {
        i < self@.len() && self@[i as int].alive && self@[i as int].kind == ResourceKind::Port(port)
    }

    /// Whether resource `i` is a living pool.
    pub open spec fn live_pool(&self, i: usize) -> bool {
        i < self@.len() && self@[i as int].alive && self@[i as int].kind == ResourceKind::Pool
    }

    /// Whether resource `i` is the living port `port`.
    fn is_live_port(&self, i: usize, port: Port) -> (r: bool)
        ensures
            r == self.live_port(i, port),
    {
        if i >= self.nodes.len() || !self.nodes[i].alive {
            return false;
        }
        match self.nodes[i].kind {
            ResourceKind::Port(p) => p == port,
            _ => false,
        }
    }

    /// Whether resource `i` is a living pool.
    fn is_live_pool(&self, i: usize) -> (r: bool)
        ensures
            r == self.live_pool(i),
    {
        if i >= self.nodes.len() || !self.nodes[i].alive {
            return false;
        }
        match self.nodes[i].kind {
            ResourceKind::Pool => true,
            _ => false,
        }
    }

    /// Records a receive queue bound to port `port_node` and pool
    /// `pool_node`, with one handle to it. `None`, and nothing recorded,
    /// unless these are the queue's port and a pool, both alive.
    pub fn bind_rx_queue(&mut self, port_node: usize, pool_node: usize, rxq: RxQ) -> (r: Option<
        usize,
    >)
        requires
            old(self).wf(),
        ensures
            final(self).wf(),
            match r {
                Some(i) => old(self).live_port(port_node, rxq.port) && old(self).live_pool(
                    pool_node,
                ) && i == old(self)@.len() && final(self)@ == old(self)@.push(
                    Node {
                        kind: ResourceKind::RxQueue(rxq),
                        first: Some(port_node),
                        second: Some(pool_node),
                        handles: 1,
                        alive: true,
                    },
                ),
                None => !(old(self).live_port(port_node, rxq.port) && old(self).live_pool(
                    pool_node,
                )) && final(self)@ == old(self)@,
            },
    {
        if !self.is_live_port(port_node, rxq.port) || !self.is_live_pool(pool_node) {
            return None;
        }
        proof {
            assert(node_ok(self@, port_node as int));
            assert(node_ok(self@, pool_node as int));
        }
        Some(self.register(ResourceKind::RxQueue(rxq), port_node, Some(pool_node)))
    }

    /// Records a transmit queue bound to port `port_node`, with one handle
    /// to it. `None`, and nothing recorded, unless that is the queue's
    /// port, alive.
    pub fn bind_tx_queue(&mut self, port_node: usize, txq: TxQ) -> (r: Option<usize>)
        requires
            old(self).wf(),
        ensures
            final(self).wf(),
            match r {
                Some(i) => old(self).live_port(port_node, txq.port) && i == old(self)@.len()
                    && final(self)@ == old(self)@.push(
                    Node {
                        kind: ResourceKind::TxQueue(txq),
                        first: Some(port_node),
                        second: None,
                        handles: 1,
                        alive: true,
                    },
                ),
                None => !old(self).live_port(port_node, txq.port) && final(self)@ == old(self)@,
            },
    {
        if !self.is_live_port(port_node, txq.port) {
            return None;
        }
        proof {
            assert(node_ok(self@, port_node as int));
        }
        Some(self.register(ResourceKind::TxQueue(txq), port_node, None))
    }

    /// Records one more handle to resource `i`. `false`, and nothing
    /// changed, where the resource is not alive or no more handles can be
    /// counted.
    pub fn acquire(&mut self, i: usize) -> (r: bool)
        requires
            old(self).wf(),
        ensures
            final(self).wf(),
            r == (i < old(self)@.len() && old(self)@[i as int].alive && old(self)@[i as int].handles
                < usize::MAX),
            r ==> final(self)@ == old(self)@.update(
                i as int,
                Node { handles: (old(self)@[i as int].handles + 1) as usize, ..old(self)@[i as int] },
            ),
            !r ==> final(self)@ == old(self)@,
    {
        if i >= self.nodes.len() || !self.nodes[i].alive || self.nodes[i].handles == usize::MAX {
            return false;
        }
        let ghost before = self@;
        let n = self.nodes[i];
        self.nodes.set(i, Node { handles: n.handles + 1, ..n });
        proof {
            let after = self@;
            assert forall|j: int| 0 <= j < after.len() implies #[trigger] node_ok(after, j) by {
                assert(node_ok(before, j));
                if before[j].first.is_some() {
                    let p = before[j].first.unwrap() as int;
                    assert(after[p].kind == before[p].kind);
                }
                if before[j].second.is_some() {
                    let m = before[j].second.unwrap() as int;
                    assert(after[m].kind == before[m].kind);
                }
                if held(before, j) && before[j].handles == 0 {
                    let d = choose|d: int|
                        j < d < before.len() && before[d].alive && #[trigger] depends(before, d, j);
                    assert(depends(after, d, j));
                }
                if held(after, j) && after[j].handles == 0 {
                    let d = choose|d: int|
                        j < d < after.len() && after[d].alive && #[trigger] depends(after, d, j);
                    assert(depends(before, d, j));
                }
            }
        }
        true
    }

    /// Gives back one handle to resource `i`, and says what has to be torn
    /// down for it, in that order.
    ///
    /// A resource is torn down when this leaves nothing that keeps it: the
    /// resource itself, then what it depended on, as far as that is kept by
    /// nothing else. Nothing happens where `i` is no resource or no handle
    /// to it is held.
    pub fn release(&mut self, i: usize) -> (torn: Vec<Teardown>)
        requires
            old(self).wf(),
        ensures
            final(self).wf(),
            !(i < old(self)@.len() && old(self)@[i as int].handles > 0) ==> final(self)@ == old(
                self,
            )@ && torn@.len() == 0,
            i < old(self)@.len() && old(self)@[i as int].handles > 0 ==> same_but(
                old(self)@,
                final(self)@,
                i as int,
                1,
            ),
            forall|j: int|
                0 <= j < final(self)@.len() && (#[trigger] final(self)@[j]).alive ==> old(
                    self,
                )@[j].alive,
            forall|a: int|
                0 <= a < torn@.len() ==> {
                    &&& (#[trigger] torn@[a]).node < old(self)@.len()
                    &&& torn@[a].kind == old(self)@[torn@[a].node as int].kind
                    &&& old(self)@[torn@[a].node as int].alive
                    &&& !final(self)@[torn@[a].node as int].alive
                },
            forall|a: int, b: int|
                0 <= a < b < torn@.len() ==> (#[trigger] torn@[a]).node > (#[trigger] torn@[b]).node,
            forall|j: int|
                0 <= j < old(self)@.len() && (#[trigger] old(self)@[j]).alive && !final(self)@[j].alive
                    ==> exists|a: int| 0 <= a < torn@.len() && (#[trigger] torn@[a]).node == j,
    {
        let mut torn: Vec<Teardown> = Vec::new();
        if i >= self.nodes.len() || self.nodes[i].handles == 0 {
            return torn;
        }
        let ghost before = self@;
        let len = self.nodes.len();
        let n = self.nodes[i];
        self.nodes.set(i, Node { handles: n.handles - 1, ..n });
        proof {
            let cur = self@;
            assert forall|j: int| i < j < len implies #[trigger] node_ok(cur, j) by {
                assert(node_ok(before, j));
                lemma_shape_kept(before, cur, i as int, 1, j);
                if held(before, j) && before[j].handles == 0 {
                    let d = choose|d: int|
                        j < d < before.len() && before[d].alive && #[trigger] depends(before, d, j);
                    assert(depends(cur, d, j));
                }
                if held(cur, j) && cur[j].handles == 0 {
                    let d = choose|d: int|
                        j < d < cur.len() && cur[d].alive && #[trigger] depends(cur, d, j);
                    assert(depends(before, d, j));
                }
            }
        }
        let mut k: usize = i + 1;
        while k > 0
            invariant
                k <= i + 1 <= len,
                len == self.nodes.len(),
                before.len() == len,
                ledger_ok(before),
                same_but(before, self@, i as int, 1),
                forall|j: int| 0 <= j < len && (#[trigger] self@[j]).alive ==> before[j].alive,
                forall|j: int| 0 <= j < k ==> (#[trigger] self@[j]).alive == before[j].alive,
                forall|j: int| k <= j < len ==> #[trigger] node_ok(self@, j),
                forall|a: int|
                    0 <= a < torn@.len() ==> {
                        &&& k <= (#[trigger] torn@[a]).node < len
                        &&& torn@[a].kind == before[torn@[a].node as int].kind
                        &&& before[torn@[a].node as int].alive
                        &&& !self@[torn@[a].node as int].alive
                    },
                forall|a: int, b: int|
                    0 <= a < b < torn@.len() ==> (#[trigger] torn@[a]).node > (
                    #[trigger] torn@[b]).node,
                forall|j: int|
                    k <= j < len && (#[trigger] before[j]).alive && !self@[j].alive ==> exists|
                        a: int,
                    | 0 <= a < torn@.len() && (#[trigger] torn@[a]).node == j,
            decreases k,
        {
            k -= 1;
            let ghost cur = self@;
            let ghost listed = torn@;
            let n = self.nodes[k];
            let kept = self.has_live_dependant(k);
            proof {
                lemma_shape_kept(before, cur, i as int, 1, k as int);
                assert(node_ok(before, k as int));
            }
            if n.alive && n.handles == 0 && !kept {
                self.nodes.set(k, Node { alive: false, ..n });
                torn.push(Teardown { node: k, kind: n.kind });
                proof {
                    let next = self@;
                    assert forall|j: int| k <= j < len implies #[trigger] node_ok(next, j) by {
                        lemma_shape_kept(before, next, i as int, 1, j);
                        if j > k {
                            assert(node_ok(cur, j));
                            if held(cur, j) && cur[j].handles == 0 {
                                let d = choose|d: int|
                                    j < d < cur.len() && cur[d].alive && #[trigger] depends(
                                        cur,
                                        d,
                                        j,
                                    );
                                assert(depends(next, d, j));
                            }
                            if held(next, j) && next[j].handles == 0 {
                                let d = choose|d: int|
                                    j < d < next.len() && next[d].alive && #[trigger] depends(
                                        next,
                                        d,
                                        j,
                                    );
                                assert(depends(cur, d, j));
                            }
                        } else {
                            if held(next, j) {
                                let d = choose|d: int|
                                    j < d < next.len() && next[d].alive && #[trigger] depends(
                                        next,
                                        d,
                                        j,
                                    );
                                assert(depends(cur, d, j));
                                assert(false);
                            }
                        }
                    }
                    assert forall|j: int|
                        k <= j < len && (#[trigger] before[j]).alive
                            && !next[j].alive implies exists|a: int|
                        0 <= a < torn@.len() && (#[trigger] torn@[a]).node == j by {
                        if j == k {
                            assert(torn@[listed.len() as int].node == j);
                        } else {
                            let a = choose|a: int|
                                0 <= a < listed.len() && (#[trigger] listed[a]).node == j;
                            assert(torn@[a].node == j);
                        }
                    }
                }
            } else {
                proof {
                    if held(cur, k as int) && !n.alive {
                        if cur[k as int].handles == 0 {
                            let d = choose|d: int|
                                k < d < cur.len() && cur[d].alive && #[trigger] depends(
                                    cur,
                                    d,
                                    k as int,
                                );
                            assert(depends(before, d, k as int));
                        }
                        assert(held(before, k as int));
                        assert(false);
                    }
                    assert(node_ok(cur, k as int));
                }
            }
        }
        torn
    }
}

/// What a resource depends on is not touched by a change of handles and of
/// who is alive: it keeps the shape of its kind.
proof fn lemma_shape_kept(before: Seq<Node>, after: Seq<Node>, i: int, by: int, j: int)
    requires
        same_but(before, after, i, by),
        ledger_ok(before),
        0 <= j < before.len(),
    ensures
        shaped(after, j),
{
    assert(node_ok(before, j));
    if before[j].first.is_some() {
        let p = before[j].first.unwrap() as int;
        if 0 <= p < before.len() {
            assert(after[p].kind == before[p].kind);
        }
    }
    if before[j].second.is_some() {
        let m = before[j].second.unwrap() as int;
        if 0 <= m < before.len() {
            assert(after[m].kind == before[m].kind);
        }
    }
}

/// Giving back a handle to one resource tears down no other resource to
/// which a handle is held: a queue released before its port leaves the port
/// alive.
pub proof fn law_release_spares_held(before: Seq<Node>, after: Seq<Node>, i: int, j: int)
    requires
        ledger_ok(after),
        same_but(before, after, i, 1),
        0 <= j < before.len(),
        j != i,
        before[j].handles > 0,
    ensures
        after[j].alive,
{
    law_handle_keeps_alive(after, j);
}

/// Giving back a handle to the runtime does not tear the runtime down while
/// a handle to anything else is held.
pub proof fn law_runtime_kept_by_dependants(before: Seq<Node>, after: Seq<Node>, j: int)
    requires
        ledger_ok(after),
        same_but(before, after, 0, 1),
        0 < j < before.len(),
        before[j].handles > 0,
    ensures
        after[0].alive,
{
    law_handle_keeps_alive(after, j);
    law_runtime_outlives_all(after, j);
}

/// What to make of the status with which the hardware answered a teardown.
#[derive(Debug, Clone, Copy, PartialEq, Eq, Structural)]
pub enum TeardownOutcome {
    /// Torn down.
    Done,
    /// Not torn down, which is worth a warning and nothing more.
    Warn,
    /// Not torn down, and an invariant is broken.
    Fatal,
}

/// What to make of the status `ret` with which the hardware answered the
/// teardown of a resource of kind `kind`: a queue that does not stop is
/// worth a warning; the runtime is judged as `cleanup_outcome` says; the
/// teardown of a port or a pool has no status that counts.
pub open spec fn teardown_outcome_of(kind: ResourceKind, ret: i32) -> TeardownOutcome {
    match kind {
        ResourceKind::RxQueue(_) | ResourceKind::TxQueue(_) => if ret != 0 {
            TeardownOutcome::Warn
        } else {
            TeardownOutcome::Done
        },
        ResourceKind::Runtime => if ret == -ENOTSUP {
            TeardownOutcome::Warn
        } else if ret == 0 {
            TeardownOutcome::Done
        } else {
            TeardownOutcome::Fatal
        },
        ResourceKind::Port(_) | ResourceKind::Pool => TeardownOutcome::Done,
    }
}

/// What to make of the status `ret` with which the hardware answered the
/// teardown of a resource of kind `kind`.
pub fn teardown_outcome(kind: ResourceKind, ret: i32) -> (r: TeardownOutcome)
    ensures
        r == teardown_outcome_of(kind, ret),
{
    match kind {
        ResourceKind::RxQueue(_) | ResourceKind::TxQueue(_) => if ret != 0 {
            TeardownOutcome::Warn
        } else {
            TeardownOutcome::Done
        },
        ResourceKind::Runtime => match cleanup_outcome(ret) {
            CleanupOutcome::NotSupported => TeardownOutcome::Warn,
            CleanupOutcome::Done => TeardownOutcome::Done,
            CleanupOutcome::Fatal => TeardownOutcome::Fatal,
        },
        ResourceKind::Port(_) | ResourceKind::Pool => TeardownOutcome::Done,
    }
}

} // verus!
