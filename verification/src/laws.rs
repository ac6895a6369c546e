//! What holds of every assignment that `setup` makes.

use vstd::prelude::*;
use crate::assign::{
    assignment, eligible, feasible, lemma_feasible_port, lemma_setup_fault, port_fault,
    rx_queues_of, setup_assignment, setup_fault, tx_queues_of,
};
use crate::ids::{Affinity, LCoreId, SocketId};
use crate::naming::lemma_rx_pool_name_injective;
use crate::port::{distinct_ports, PortInfo, DEFAULT_RX_DESC, DEFAULT_TX_DESC};
use crate::queue::{RxQ, TxQ};
use crate::script::{port_script, setup_script, HwAction};
use crate::topology::{
    all_cores, cores_on, distinct_cores, lemma_position, position, rising_cores, CoreInfo,
};

verus! {

/// `cores` lists core `c`, on socket `s`.
pub open spec fn sits_on(cores: Seq<CoreInfo>, c: LCoreId, s: SocketId) -> bool {
    exists|i: int| 0 <= i < cores.len() && #[trigger] cores[i] == (CoreInfo { id: c, socket: s })
}

/// `cores` lists core `c`.
pub open spec fn listed(cores: Seq<CoreInfo>, c: LCoreId) -> bool {
    exists|i: int| 0 <= i < cores.len() && (#[trigger] cores[i]).id == c
}

proof fn lemma_push_contains<T>(s: Seq<T>, x: T, y: T)
    ensures
        s.push(x).contains(y) <==> s.contains(y) || x == y,
{
    if s.contains(y) {
        let k = choose|k: int| 0 <= k < s.len() && s[k] == y;
        assert(s.push(x)[k] == y);
    }
    if x == y {
        assert(s.push(x)[s.len() as int] == y);
    }
    if s.push(x).contains(y) {
        let k = choose|k: int| 0 <= k < s.push(x).len() && s.push(x)[k] == y;
        if k < s.len() {
            assert(s[k] == y);
        }
    }
}

proof fn lemma_add_contains<T>(s: Seq<T>, t: Seq<T>, y: T)
    ensures
        (s + t).contains(y) <==> s.contains(y) || t.contains(y),
{
    if s.contains(y) {
        let k = choose|k: int| 0 <= k < s.len() && s[k] == y;
        assert((s + t)[k] == y);
    }
    if t.contains(y) {
        let k = choose|k: int| 0 <= k < t.len() && t[k] == y;
        assert((s + t)[s.len() + k] == y);
    }
    if (s + t).contains(y) {
        let k = choose|k: int| 0 <= k < (s + t).len() && (s + t)[k] == y;
        if k < s.len() {
            assert(s[k] == y);
        } else {
            assert(t[k - s.len()] == y);
        }
    }
}

/// The cores on a socket are the listed cores that sit on it, each once
/// where no core is listed twice.
pub proof fn lemma_cores_on(cores: Seq<CoreInfo>, s: SocketId)
    ensures
        forall|c: LCoreId| #[trigger] cores_on(cores, s).contains(c) <==> sits_on(cores, c, s),
        distinct_cores(cores) ==> cores_on(cores, s).no_duplicates(),
    decreases cores.len(),
{
    if cores.len() == 0 {
        assert forall|c: LCoreId| #[trigger]
            cores_on(cores, s).contains(c) <==> sits_on(cores, c, s) by {}
    } else {
        let init = cores.drop_last();
        let last = cores.last();
        let rest = cores_on(init, s);
        lemma_cores_on(init, s);
        assert forall|c: LCoreId| #[trigger]
            cores_on(cores, s).contains(c) <==> sits_on(cores, c, s) by {
            lemma_push_contains(rest, last.id, c);
            if sits_on(init, c, s) {
                let i = choose|i: int|
                    0 <= i < init.len() && #[trigger] init[i] == (CoreInfo { id: c, socket: s });
                assert(cores[i] == init[i]);
            }
            if last.socket == s && last.id == c {
                assert(cores[cores.len() - 1] == (CoreInfo { id: c, socket: s }));
            }
            if sits_on(cores, c, s) {
                let i = choose|i: int|
                    0 <= i < cores.len() && #[trigger] cores[i] == (CoreInfo { id: c, socket: s });
                if i < init.len() {
                    assert(init[i] == cores[i]);
                }
            }
        }
        if distinct_cores(cores) {
            assert(distinct_cores(init)) by {
                assert forall|i: int, j: int| 0 <= i < j < init.len() implies (
                #[trigger] init[i]).id != (#[trigger] init[j]).id by {
                    assert(init[i] == cores[i] && init[j] == cores[j]);
                }
            }
            if last.socket == s {
                if rest.contains(last.id) {
                    assert(sits_on(init, last.id, s));
                    let i = choose|i: int|
                        0 <= i < init.len() && #[trigger] init[i] == (CoreInfo {
                            id: last.id,
                            socket: s,
                        });
                    assert(cores[i] == init[i]);
                    assert(cores[i].id == cores[cores.len() - 1].id);
                    assert(false);
                }
                assert(rest.push(last.id).no_duplicates()) by {
                    assert forall|i: int, j: int|
                        0 <= i < rest.len() + 1 && 0 <= j < rest.len() + 1 && i
                            != j implies rest.push(last.id)[i] != rest.push(last.id)[j] by {
                        if i < rest.len() && j < rest.len() {
                        } else if i < rest.len() {
                            assert(rest[i] != last.id);
                        } else {
                            assert(rest[j] != last.id);
                        }
                    }
                }
            }
        }
    }
}

/// Where no core is listed twice, a listed core sits on one socket only.
pub proof fn lemma_one_socket(cores: Seq<CoreInfo>, c: LCoreId, s1: SocketId, s2: SocketId)
    requires
        distinct_cores(cores),
        sits_on(cores, c, s1),
        sits_on(cores, c, s2),
    ensures
        s1 == s2,
{
    let i = choose|i: int| 0 <= i < cores.len() && #[trigger] cores[i] == (CoreInfo { id: c, socket: s1 });
    let j = choose|j: int| 0 <= j < cores.len() && #[trigger] cores[j] == (CoreInfo { id: c, socket: s2 });
    if i < j {
        assert(cores[i].id != cores[j].id);
    } else if j < i {
        assert(cores[j].id != cores[i].id);
    }
}

/// Under `Full` every listed core is eligible, and no other; each once
/// where no core is listed twice.
pub proof fn lemma_all_cores(cores: Seq<CoreInfo>)
    ensures
        forall|c: LCoreId| #[trigger] all_cores(cores).contains(c) <==> listed(cores, c),
        distinct_cores(cores) ==> all_cores(cores).no_duplicates(),
{
    let all = all_cores(cores);
    assert forall|c: LCoreId| #[trigger] all.contains(c) <==> listed(cores, c) by {
        if all.contains(c) {
            let i = choose|i: int| 0 <= i < all.len() && all[i] == c;
            assert(cores[i].id == c);
        }
        if listed(cores, c) {
            let i = choose|i: int| 0 <= i < cores.len() && (#[trigger] cores[i]).id == c;
            assert(all[i] == c);
        }
    }
    if distinct_cores(cores) {
        assert forall|i: int, j: int| 0 <= i < all.len() && 0 <= j < all.len() && i != j implies all[i]
            != all[j] by {
            if i < j {
                assert(cores[i].id != cores[j].id);
            } else {
                assert(cores[j].id != cores[i].id);
            }
        }
    }
}

/// Of cores listed by rising identifier, those on one socket are listed by
/// rising identifier, each below the identifiers listed after them.
pub proof fn lemma_cores_on_rising(cores: Seq<CoreInfo>, s: SocketId)
    requires
        rising_cores(cores),
    ensures
        forall|i: int, j: int|
            0 <= i < j < cores_on(cores, s).len() ==> (#[trigger] cores_on(cores, s)[i]).0 < (
            #[trigger] cores_on(cores, s)[j]).0,
        forall|i: int|
            0 <= i < cores_on(cores, s).len() && cores.len() > 0 ==> (#[trigger] cores_on(
                cores,
                s,
            )[i]).0 <= cores.last().id.0,
    decreases cores.len(),
{
    if cores.len() > 0 {
        let init = cores.drop_last();
        let last = cores.last();
        let rest = cores_on(init, s);
        assert(rising_cores(init)) by {
            assert forall|i: int, j: int| 0 <= i < j < init.len() implies (#[trigger] init[i]).id.0 < (
            #[trigger] init[j]).id.0 by {
                assert(init[i] == cores[i] && init[j] == cores[j]);
            }
        }
        lemma_cores_on_rising(init, s);
        assert forall|i: int| 0 <= i < rest.len() implies (#[trigger] rest[i]).0 < last.id.0 by {
            assert(init.len() > 0);
            assert(init.last() == cores[cores.len() - 2]);
            assert(cores[cores.len() - 2].id.0 < cores[cores.len() - 1].id.0);
        }
    }
}

/// With the cores listed by rising identifier, as enumeration lists them,
/// the cores eligible for a port stand by rising identifier: queue index
/// `i` of the port goes to the eligible core with the `i`-th smallest
/// identifier.
pub proof fn law_eligible_by_rising_identifier(
    cores: Seq<CoreInfo>,
    socket: SocketId,
    affinity: Affinity,
    i: int,
    j: int,
)
    requires
        rising_cores(cores),
        0 <= i < j < eligible(cores, socket, affinity).len(),
    ensures
        eligible(cores, socket, affinity)[i].0 < eligible(cores, socket, affinity)[j].0,
{
    match affinity {
        Affinity::Full => {
            assert(cores[i].id.0 < cores[j].id.0);
        },
        Affinity::Numa => {
            lemma_cores_on_rising(cores, socket);
        },
    }
}

/// Who is eligible for the queues of a port on `socket`: under `Full` every
/// listed core, under `Numa` the listed cores on that socket. No core is
/// eligible twice where none is listed twice.
pub proof fn lemma_eligible(cores: Seq<CoreInfo>, socket: SocketId, affinity: Affinity)
    ensures
        forall|c: LCoreId| #[trigger]
            eligible(cores, socket, affinity).contains(c) <==> match affinity {
                Affinity::Full => listed(cores, c),
                Affinity::Numa => sits_on(cores, c, socket),
            },
        distinct_cores(cores) ==> eligible(cores, socket, affinity).no_duplicates(),
{
    lemma_all_cores(cores);
    lemma_cores_on(cores, socket);
}

/// The place of `core` among the cores eligible for port `p`: its queue
/// index there, if it is eligible.
pub open spec fn place(core: LCoreId, cores: Seq<CoreInfo>, p: PortInfo, affinity: Affinity) -> int {
    position(eligible(cores, p.port.socket, affinity), core)
}

/// Whether `core` gets a queue of port `p`.
pub open spec fn gets_queue(
    core: LCoreId,
    cores: Seq<CoreInfo>,
    p: PortInfo,
    affinity: Affinity,
) -> bool {
    place(core, cores, p, affinity) < eligible(cores, p.port.socket, affinity).len()
}

/// The receive queue that `core` gets of port `p`.
pub open spec fn rx_handle(core: LCoreId, cores: Seq<CoreInfo>, p: PortInfo, affinity: Affinity) -> RxQ {
    RxQ { queue_id: place(core, cores, p, affinity) as u16, port: p.port }
}

/// Queue `q` is the receive queue that `core` gets of one of `ports`.
pub open spec fn rx_origin(
    core: LCoreId,
    cores: Seq<CoreInfo>,
    ports: Seq<PortInfo>,
    affinity: Affinity,
    q: RxQ,
) -> bool {
    exists|k: int|
        0 <= k < ports.len() && gets_queue(core, cores, #[trigger] ports[k], affinity) && q
            == rx_handle(core, cores, ports[k], affinity)
}

/// The receive queues of a core are those it gets of the ports it is eligible
/// for, one of each such port, and no queue twice where no port is listed
/// twice.
pub proof fn lemma_rx_queues_of(
    core: LCoreId,
    cores: Seq<CoreInfo>,
    ports: Seq<PortInfo>,
    affinity: Affinity,
)
    ensures
        forall|b: int|
            0 <= b < rx_queues_of(core, cores, ports, affinity).len() ==> rx_origin(
                core,
                cores,
                ports,
                affinity,
                #[trigger] rx_queues_of(core, cores, ports, affinity)[b],
            ),
        forall|k: int|
            0 <= k < ports.len() && gets_queue(core, cores, #[trigger] ports[k], affinity)
                ==> rx_queues_of(core, cores, ports, affinity).contains(
                rx_handle(core, cores, ports[k], affinity),
            ),
        distinct_ports(ports) ==> rx_queues_of(core, cores, ports, affinity).no_duplicates(),
    decreases ports.len(),
{
    let all = rx_queues_of(core, cores, ports, affinity);
    if ports.len() > 0 {
        let init = ports.drop_last();
        let last = ports.last();
        let rest = rx_queues_of(core, cores, init, affinity);
        lemma_rx_queues_of(core, cores, init, affinity);
        assert(ports[ports.len() - 1] == last);
        assert forall|b: int| 0 <= b < all.len() implies rx_origin(
            core,
            cores,
            ports,
            affinity,
            #[trigger] all[b],
        ) by {
            if b < rest.len() {
                assert(all[b] == rest[b]);
                assert(rx_origin(core, cores, init, affinity, rest[b]));
                let k = choose|k: int|
                    0 <= k < init.len() && gets_queue(core, cores, #[trigger] init[k], affinity)
                        && rest[b] == rx_handle(core, cores, init[k], affinity);
                assert(ports[k] == init[k]);
            } else {
                assert(gets_queue(core, cores, ports[ports.len() - 1], affinity));
            }
        }
        assert forall|k: int|
            0 <= k < ports.len() && gets_queue(
                core,
                cores,
                #[trigger] ports[k],
                affinity,
            ) implies all.contains(rx_handle(core, cores, ports[k], affinity)) by {
            let q = rx_handle(core, cores, ports[k], affinity);
            if k < init.len() {
                assert(init[k] == ports[k]);
                assert(rest.contains(q));
                if gets_queue(core, cores, last, affinity) {
                    lemma_push_contains(rest, rx_handle(core, cores, last, affinity), q);
                }
            } else {
                lemma_push_contains(rest, rx_handle(core, cores, last, affinity), q);
            }
        }
        if distinct_ports(ports) {
            assert(distinct_ports(init)) by {
                assert forall|i: int, j: int| 0 <= i < j < init.len() implies (
                #[trigger] init[i]).port.port_id != (#[trigger] init[j]).port.port_id by {
                    assert(init[i] == ports[i] && init[j] == ports[j]);
                }
            }
            if gets_queue(core, cores, last, affinity) {
                let q = rx_handle(core, cores, last, affinity);
                assert forall|i: int, j: int|
                    0 <= i < all.len() && 0 <= j < all.len() && i != j implies all[i]
                    != all[j] by {
                    let a = if i < j { i } else { j };
                    let b = if i < j { j } else { i };
                    if b < rest.len() {
                        assert(rest[a] != rest[b]);
                    } else {
                        assert(rx_origin(core, cores, init, affinity, rest[a]));
                        let k = choose|k: int|
                            0 <= k < init.len() && gets_queue(
                                core,
                                cores,
                                #[trigger] init[k],
                                affinity,
                            ) && rest[a] == rx_handle(core, cores, init[k], affinity);
                        assert(ports[k] == init[k]);
                        assert(ports[k].port.port_id != ports[ports.len() - 1].port.port_id);
                    }
                }
            }
        }
    }
}

/// The transmit queue that `core` gets of port `p`.
pub open spec fn tx_handle(core: LCoreId, cores: Seq<CoreInfo>, p: PortInfo, affinity: Affinity) -> TxQ {
    TxQ { queue_id: place(core, cores, p, affinity) as u16, port: p.port }
}

/// Queue `q` is the transmit queue that `core` gets of one of `ports`.
pub open spec fn tx_origin(
    core: LCoreId,
    cores: Seq<CoreInfo>,
    ports: Seq<PortInfo>,
    affinity: Affinity,
    q: TxQ,
) -> bool {
    exists|k: int|
        0 <= k < ports.len() && gets_queue(core, cores, #[trigger] ports[k], affinity) && q
            == tx_handle(core, cores, ports[k], affinity)
}

/// The transmit queues of a core are those it gets of the ports it is eligible
/// for, one of each such port, and no queue twice where no port is listed
/// twice.
pub proof fn lemma_tx_queues_of(
    core: LCoreId,
    cores: Seq<CoreInfo>,
    ports: Seq<PortInfo>,
    affinity: Affinity,
)
    ensures
        forall|b: int|
            0 <= b < tx_queues_of(core, cores, ports, affinity).len() ==> tx_origin(
                core,
                cores,
                ports,
                affinity,
                #[trigger] tx_queues_of(core, cores, ports, affinity)[b],
            ),
        forall|k: int|
            0 <= k < ports.len() && gets_queue(core, cores, #[trigger] ports[k], affinity)
                ==> tx_queues_of(core, cores, ports, affinity).contains(
                tx_handle(core, cores, ports[k], affinity),
            ),
        distinct_ports(ports) ==> tx_queues_of(core, cores, ports, affinity).no_duplicates(),
    decreases ports.len(),
{
    let all = tx_queues_of(core, cores, ports, affinity);
    if ports.len() > 0 {
        let init = ports.drop_last();
        let last = ports.last();
        let rest = tx_queues_of(core, cores, init, affinity);
        lemma_tx_queues_of(core, cores, init, affinity);
        assert(ports[ports.len() - 1] == last);
        assert forall|b: int| 0 <= b < all.len() implies tx_origin(
            core,
            cores,
            ports,
            affinity,
            #[trigger] all[b],
        ) by {
            if b < rest.len() {
                assert(all[b] == rest[b]);
                assert(tx_origin(core, cores, init, affinity, rest[b]));
                let k = choose|k: int|
                    0 <= k < init.len() && gets_queue(core, cores, #[trigger] init[k], affinity)
                        && rest[b] == tx_handle(core, cores, init[k], affinity);
                assert(ports[k] == init[k]);
            } else {
                assert(gets_queue(core, cores, ports[ports.len() - 1], affinity));
            }
        }
        assert forall|k: int|
            0 <= k < ports.len() && gets_queue(
                core,
                cores,
                #[trigger] ports[k],
                affinity,
            ) implies all.contains(tx_handle(core, cores, ports[k], affinity)) by {
            let q = tx_handle(core, cores, ports[k], affinity);
            if k < init.len() {
                assert(init[k] == ports[k]);
                assert(rest.contains(q));
                if gets_queue(core, cores, last, affinity) {
                    lemma_push_contains(rest, tx_handle(core, cores, last, affinity), q);
                }
            } else {
                lemma_push_contains(rest, tx_handle(core, cores, last, affinity), q);
            }
        }
        if distinct_ports(ports) {
            assert(distinct_ports(init)) by {
                assert forall|i: int, j: int| 0 <= i < j < init.len() implies (
                #[trigger] init[i]).port.port_id != (#[trigger] init[j]).port.port_id by {
                    assert(init[i] == ports[i] && init[j] == ports[j]);
                }
            }
            if gets_queue(core, cores, last, affinity) {
                let q = tx_handle(core, cores, last, affinity);
                assert forall|i: int, j: int|
                    0 <= i < all.len() && 0 <= j < all.len() && i != j implies all[i]
                    != all[j] by {
                    let a = if i < j { i } else { j };
                    let b = if i < j { j } else { i };
                    if b < rest.len() {
                        assert(rest[a] != rest[b]);
                    } else {
                        assert(tx_origin(core, cores, init, affinity, rest[a]));
                        let k = choose|k: int|
                            0 <= k < init.len() && gets_queue(
                                core,
                                cores,
                                #[trigger] init[k],
                                affinity,
                            ) && rest[a] == tx_handle(core, cores, init[k], affinity);
                        assert(ports[k] == init[k]);
                        assert(ports[k].port.port_id != ports[ports.len() - 1].port.port_id);
                    }
                }
            }
        }
    }
}

/// What the listed core number `i` is given: itself, its receive queues and
/// its transmit queues.
pub open spec fn entry_of(
    cores: Seq<CoreInfo>,
    i: int,
    ports: Seq<PortInfo>,
    rx: Affinity,
    tx: Affinity,
) -> (LCoreId, Seq<RxQ>, Seq<TxQ>) {
    (
        cores[i].id,
        rx_queues_of(cores[i].id, cores, ports, rx),
        tx_queues_of(cores[i].id, cores, ports, tx),
    )
}

/// Whether the listed core number `i` gets any queue.
pub open spec fn has_queue(
    cores: Seq<CoreInfo>,
    i: int,
    ports: Seq<PortInfo>,
    rx: Affinity,
    tx: Affinity,
) -> bool {
    rx_queues_of(cores[i].id, cores, ports, rx).len() + tx_queues_of(
        cores[i].id,
        cores,
        ports,
        tx,
    ).len() > 0
}

/// Entry `e` is what one of the first `n` listed cores is given.
pub open spec fn entry_origin(
    cores: Seq<CoreInfo>,
    n: nat,
    ports: Seq<PortInfo>,
    rx: Affinity,
    tx: Affinity,
    e: (LCoreId, Seq<RxQ>, Seq<TxQ>),
) -> bool {
    exists|i: int|
        0 <= i < n && has_queue(cores, i, ports, rx, tx) && e == #[trigger] entry_of(
            cores,
            i,
            ports,
            rx,
            tx,
        )
}

/// The assignment holds one entry for each listed core that gets a queue,
/// and nothing else; no core has two entries where none is listed twice.
pub proof fn lemma_assignment(
    cores: Seq<CoreInfo>,
    n: nat,
    ports: Seq<PortInfo>,
    rx: Affinity,
    tx: Affinity,
)
    requires
        n <= cores.len(),
    ensures
        forall|a: int|
            0 <= a < assignment(cores, n, ports, rx, tx).len() ==> entry_origin(
                cores,
                n,
                ports,
                rx,
                tx,
                #[trigger] assignment(cores, n, ports, rx, tx)[a],
            ),
        forall|i: int|
            0 <= i < n && has_queue(cores, i, ports, rx, tx) ==> assignment(
                cores,
                n,
                ports,
                rx,
                tx,
            ).contains(#[trigger] entry_of(cores, i, ports, rx, tx)),
        distinct_cores(cores) ==> forall|a1: int, a2: int|
            0 <= a1 < a2 < assignment(cores, n, ports, rx, tx).len() ==> (#[trigger] assignment(
                cores,
                n,
                ports,
                rx,
                tx,
            )[a1]).0 != (#[trigger] assignment(cores, n, ports, rx, tx)[a2]).0,
    decreases n,
{
    let all = assignment(cores, n, ports, rx, tx);
    if n > 0 {
        let rest = assignment(cores, (n - 1) as nat, ports, rx, tx);
        lemma_assignment(cores, (n - 1) as nat, ports, rx, tx);
        let e = entry_of(cores, n - 1, ports, rx, tx);
        assert forall|a: int| 0 <= a < all.len() implies entry_origin(
            cores,
            n,
            ports,
            rx,
            tx,
            #[trigger] all[a],
        ) by {
            if a < rest.len() {
                assert(all[a] == rest[a]);
                assert(entry_origin(cores, (n - 1) as nat, ports, rx, tx, rest[a]));
                let i = choose|i: int|
                    0 <= i < n - 1 && has_queue(cores, i, ports, rx, tx) && rest[a]
                        == #[trigger] entry_of(cores, i, ports, rx, tx);
                assert(all[a] == entry_of(cores, i, ports, rx, tx));
            } else {
                assert(all[a] == entry_of(cores, n - 1, ports, rx, tx));
            }
        }
        assert forall|i: int| 0 <= i < n && has_queue(cores, i, ports, rx, tx) implies all.contains(
            #[trigger] entry_of(cores, i, ports, rx, tx),
        ) by {
            let x = entry_of(cores, i, ports, rx, tx);
            if has_queue(cores, n - 1, ports, rx, tx) {
                lemma_push_contains(rest, e, x);
            }
        }
        if distinct_cores(cores) {
            assert forall|a1: int, a2: int| 0 <= a1 < a2 < all.len() implies (#[trigger] all[a1]).0
                != (#[trigger] all[a2]).0 by {
                if a2 < rest.len() {
                    assert(rest[a1].0 != rest[a2].0);
                } else {
                    assert(entry_origin(cores, (n - 1) as nat, ports, rx, tx, rest[a1]));
                    let i = choose|i: int|
                        0 <= i < n - 1 && has_queue(cores, i, ports, rx, tx) && rest[a1]
                            == #[trigger] entry_of(cores, i, ports, rx, tx);
                    assert(cores[i].id != cores[n - 1].id);
                }
            }
        }
    }
}

/// The assignment `r` gives receive queue `q` to core `core`.
pub open spec fn rx_given(r: Seq<(LCoreId, Seq<RxQ>, Seq<TxQ>)>, core: LCoreId, q: RxQ) -> bool {
    exists|a: int, b: int|
        0 <= a < r.len() && 0 <= b < r[a].1.len() && r[a].0 == core && #[trigger] r[a].1[b] == q
}

/// Under `Full` placement every listed core is given a receive queue of every
/// port: the one whose index is the core's place among all cores.
pub proof fn law_full_rx_reaches_every_core(
    cores: Seq<CoreInfo>,
    ports: Seq<PortInfo>,
    rx: Affinity,
    tx: Affinity,
    i: int,
    k: int,
)
    requires
        0 <= i < cores.len(),
        0 <= k < ports.len(),
        rx == Affinity::Full,
    ensures
        rx_given(
            setup_assignment(cores, ports, rx, tx),
            cores[i].id,
            rx_handle(cores[i].id, cores, ports[k], rx),
        ),
        rx_handle(cores[i].id, cores, ports[k], rx).port == ports[k].port,
{
    let r = setup_assignment(cores, ports, rx, tx);
    let c = cores[i].id;
    let among = eligible(cores, ports[k].port.socket, rx);
    let q = rx_handle(c, cores, ports[k], rx);
    lemma_eligible(cores, ports[k].port.socket, rx);
    assert(listed(cores, c));
    assert(among.contains(c));
    lemma_position(among, c);
    assert(gets_queue(c, cores, ports[k], rx));
    lemma_rx_queues_of(c, cores, ports, rx);
    let list = rx_queues_of(c, cores, ports, rx);
    assert(list.contains(q));
    let b = choose|b: int| 0 <= b < list.len() && list[b] == q;
    assert(has_queue(cores, i, ports, rx, tx));
    lemma_assignment(cores, cores.len(), ports, rx, tx);
    let e = entry_of(cores, i, ports, rx, tx);
    assert(r.contains(e));
    let a = choose|a: int| 0 <= a < r.len() && r[a] == e;
    assert(r[a].1[b] == q);
}

/// Under `Numa` placement a core is given receive queues only of ports on a
/// socket that it sits on.
pub proof fn law_numa_rx_stays_local(
    cores: Seq<CoreInfo>,
    ports: Seq<PortInfo>,
    rx: Affinity,
    tx: Affinity,
    a: int,
    b: int,
)
    requires
        rx == Affinity::Numa,
        0 <= a < setup_assignment(cores, ports, rx, tx).len(),
        0 <= b < setup_assignment(cores, ports, rx, tx)[a].1.len(),
    ensures
        sits_on(
            cores,
            setup_assignment(cores, ports, rx, tx)[a].0,
            setup_assignment(cores, ports, rx, tx)[a].1[b].port.socket,
        ),
{
    let r = setup_assignment(cores, ports, rx, tx);
    lemma_assignment(cores, cores.len(), ports, rx, tx);
    assert(entry_origin(cores, cores.len(), ports, rx, tx, r[a]));
    let i = choose|i: int|
        0 <= i < cores.len() && has_queue(cores, i, ports, rx, tx) && r[a] == #[trigger] entry_of(
            cores,
            i,
            ports,
            rx,
            tx,
        );
    let c = cores[i].id;
    let list = rx_queues_of(c, cores, ports, rx);
    lemma_rx_queues_of(c, cores, ports, rx);
    assert(rx_origin(c, cores, ports, rx, list[b]));
    let k = choose|k: int|
        0 <= k < ports.len() && gets_queue(c, cores, #[trigger] ports[k], rx) && list[b]
            == rx_handle(c, cores, ports[k], rx);
    let among = eligible(cores, ports[k].port.socket, rx);
    lemma_position(among, c);
    lemma_eligible(cores, ports[k].port.socket, rx);
    assert(among.contains(c));
}

/// Where the assignment holds receive queue number `b` of entry number `a`:
/// the listed core and the port it comes from, with the core's place among
/// the port's eligible cores as the queue index.
proof fn lemma_rx_source(
    cores: Seq<CoreInfo>,
    ports: Seq<PortInfo>,
    rx: Affinity,
    tx: Affinity,
    a: int,
    b: int,
) -> (ik: (int, int))
    requires
        feasible(cores, ports, rx, tx),
        0 <= a < setup_assignment(cores, ports, rx, tx).len(),
        0 <= b < setup_assignment(cores, ports, rx, tx)[a].1.len(),
    ensures
        0 <= ik.0 < cores.len(),
        0 <= ik.1 < ports.len(),
        setup_assignment(cores, ports, rx, tx)[a].0 == cores[ik.0].id,
        setup_assignment(cores, ports, rx, tx)[a].1[b].port == ports[ik.1].port,
        setup_assignment(cores, ports, rx, tx)[a].1[b].queue_id == place(
            cores[ik.0].id,
            cores,
            ports[ik.1],
            rx,
        ),
        place(cores[ik.0].id, cores, ports[ik.1], rx) < eligible(
            cores,
            ports[ik.1].port.socket,
            rx,
        ).len(),
        eligible(cores, ports[ik.1].port.socket, rx)[place(
            cores[ik.0].id,
            cores,
            ports[ik.1],
            rx,
        )] == cores[ik.0].id,
{
    let r = setup_assignment(cores, ports, rx, tx);
    lemma_assignment(cores, cores.len(), ports, rx, tx);
    assert(entry_origin(cores, cores.len(), ports, rx, tx, r[a]));
    let i = choose|i: int|
        0 <= i < cores.len() && has_queue(cores, i, ports, rx, tx) && r[a] == #[trigger] entry_of(
            cores,
            i,
            ports,
            rx,
            tx,
        );
    let c = cores[i].id;
    let list = rx_queues_of(c, cores, ports, rx);
    lemma_rx_queues_of(c, cores, ports, rx);
    assert(rx_origin(c, cores, ports, rx, list[b]));
    let k = choose|k: int|
        0 <= k < ports.len() && gets_queue(c, cores, #[trigger] ports[k], rx) && list[b]
            == rx_handle(c, cores, ports[k], rx);
    lemma_feasible_port(cores, ports[k], rx, tx);
    lemma_position(eligible(cores, ports[k].port.socket, rx), c);
    (i, k)
}

/// The receive queue indices of a port have no gap: each index below the
/// number of the port's eligible cores is given to a core, the one at that
/// place among them.
pub proof fn law_rx_indices_without_gap(
    cores: Seq<CoreInfo>,
    ports: Seq<PortInfo>,
    rx: Affinity,
    tx: Affinity,
    k: int,
    j: int,
)
    requires
        distinct_cores(cores),
        feasible(cores, ports, rx, tx),
        0 <= k < ports.len(),
        0 <= j < eligible(cores, ports[k].port.socket, rx).len(),
    ensures
        rx_given(
            setup_assignment(cores, ports, rx, tx),
            eligible(cores, ports[k].port.socket, rx)[j],
            RxQ { queue_id: j as u16, port: ports[k].port },
        ),
{
    let among = eligible(cores, ports[k].port.socket, rx);
    let c = among[j];
    lemma_eligible(cores, ports[k].port.socket, rx);
    assert(among.contains(c));
    assert(listed(cores, c)) by {
        if rx == Affinity::Numa {
            let i = choose|i: int|
                0 <= i < cores.len() && #[trigger] cores[i] == (CoreInfo {
                    id: c,
                    socket: ports[k].port.socket,
                });
            assert(cores[i].id == c);
        }
    }
    let i = choose|i: int| 0 <= i < cores.len() && (#[trigger] cores[i]).id == c;
    lemma_position(among, c);
    assert(position(among, c) == j);
    law_rx_given_where_eligible(cores, ports, rx, tx, i, k);
}

/// A listed core that is eligible for a port is given the receive queue of
/// that port whose index is its place among the eligible cores.
pub proof fn law_rx_given_where_eligible(
    cores: Seq<CoreInfo>,
    ports: Seq<PortInfo>,
    rx: Affinity,
    tx: Affinity,
    i: int,
    k: int,
)
    requires
        0 <= i < cores.len(),
        0 <= k < ports.len(),
        gets_queue(cores[i].id, cores, ports[k], rx),
    ensures
        rx_given(
            setup_assignment(cores, ports, rx, tx),
            cores[i].id,
            rx_handle(cores[i].id, cores, ports[k], rx),
        ),
{
    let r = setup_assignment(cores, ports, rx, tx);
    let c = cores[i].id;
    let q = rx_handle(c, cores, ports[k], rx);
    lemma_rx_queues_of(c, cores, ports, rx);
    let list = rx_queues_of(c, cores, ports, rx);
    assert(list.contains(q));
    let b = choose|b: int| 0 <= b < list.len() && list[b] == q;
    assert(has_queue(cores, i, ports, rx, tx));
    lemma_assignment(cores, cores.len(), ports, rx, tx);
    let e = entry_of(cores, i, ports, rx, tx);
    assert(r.contains(e));
    let a = choose|a: int| 0 <= a < r.len() && r[a] == e;
    assert(r[a].1[b] == q);
}

/// Every receive queue of a port that the assignment holds has an index
/// below the number of the port's eligible cores.
pub proof fn law_rx_indices_in_range(
    cores: Seq<CoreInfo>,
    ports: Seq<PortInfo>,
    rx: Affinity,
    tx: Affinity,
    k: int,
    a: int,
    b: int,
)
    requires
        distinct_ports(ports),
        feasible(cores, ports, rx, tx),
        0 <= k < ports.len(),
        0 <= a < setup_assignment(cores, ports, rx, tx).len(),
        0 <= b < setup_assignment(cores, ports, rx, tx)[a].1.len(),
        setup_assignment(cores, ports, rx, tx)[a].1[b].port == ports[k].port,
    ensures
        setup_assignment(cores, ports, rx, tx)[a].1[b].queue_id < eligible(
            cores,
            ports[k].port.socket,
            rx,
        ).len(),
{
    let ik = lemma_rx_source(cores, ports, rx, tx, a, b);
    if ik.1 < k {
        assert(ports[ik.1].port.port_id != ports[k].port.port_id);
    } else if k < ik.1 {
        assert(ports[k].port.port_id != ports[ik.1].port.port_id);
    }
}

/// The assignment holds no receive queue twice: two places in it that hold
/// the same queue of the same port are one place.
pub proof fn law_rx_queues_unique(
    cores: Seq<CoreInfo>,
    ports: Seq<PortInfo>,
    rx: Affinity,
    tx: Affinity,
    a1: int,
    b1: int,
    a2: int,
    b2: int,
)
    requires
        distinct_cores(cores),
        distinct_ports(ports),
        feasible(cores, ports, rx, tx),
        0 <= a1 < setup_assignment(cores, ports, rx, tx).len(),
        0 <= b1 < setup_assignment(cores, ports, rx, tx)[a1].1.len(),
        0 <= a2 < setup_assignment(cores, ports, rx, tx).len(),
        0 <= b2 < setup_assignment(cores, ports, rx, tx)[a2].1.len(),
        setup_assignment(cores, ports, rx, tx)[a1].1[b1] == setup_assignment(
            cores,
            ports,
            rx,
            tx,
        )[a2].1[b2],
    ensures
        a1 == a2,
        b1 == b2,
{
    let r = setup_assignment(cores, ports, rx, tx);
    lemma_assignment(cores, cores.len(), ports, rx, tx);
    let s1 = lemma_rx_source(cores, ports, rx, tx, a1, b1);
    let s2 = lemma_rx_source(cores, ports, rx, tx, a2, b2);
    if s1.1 < s2.1 {
        assert(ports[s1.1].port.port_id != ports[s2.1].port.port_id);
    } else if s2.1 < s1.1 {
        assert(ports[s2.1].port.port_id != ports[s1.1].port.port_id);
    }
    assert(s1.1 == s2.1);
    assert(r[a1].0 == r[a2].0);
    if a1 < a2 {
        assert(r[a1].0 != r[a2].0);
    } else if a2 < a1 {
        assert(r[a2].0 != r[a1].0);
    }
    assert(entry_origin(cores, cores.len(), ports, rx, tx, r[a1]));
    let i = choose|i: int|
        0 <= i < cores.len() && has_queue(cores, i, ports, rx, tx) && r[a1] == #[trigger] entry_of(
            cores,
            i,
            ports,
            rx,
            tx,
        );
    lemma_rx_queues_of(cores[i].id, cores, ports, rx);
}

/// The assignment `r` gives transmit queue `q` to core `core`.
pub open spec fn tx_given(r: Seq<(LCoreId, Seq<RxQ>, Seq<TxQ>)>, core: LCoreId, q: TxQ) -> bool {
    exists|a: int, b: int|
        0 <= a < r.len() && 0 <= b < r[a].2.len() && r[a].0 == core && #[trigger] r[a].2[b] == q
}

/// Under `Full` placement every listed core is given a transmit queue of every
/// port: the one whose index is the core's place among all cores.
pub proof fn law_full_tx_reaches_every_core(
    cores: Seq<CoreInfo>,
    ports: Seq<PortInfo>,
    rx: Affinity,
    tx: Affinity,
    i: int,
    k: int,
)
    requires
        0 <= i < cores.len(),
        0 <= k < ports.len(),
        tx == Affinity::Full,
    ensures
        tx_given(
            setup_assignment(cores, ports, rx, tx),
            cores[i].id,
            tx_handle(cores[i].id, cores, ports[k], tx),
        ),
        tx_handle(cores[i].id, cores, ports[k], tx).port == ports[k].port,
{
    let r = setup_assignment(cores, ports, rx, tx);
    let c = cores[i].id;
    let among = eligible(cores, ports[k].port.socket, tx);
    let q = tx_handle(c, cores, ports[k], tx);
    lemma_eligible(cores, ports[k].port.socket, tx);
    assert(listed(cores, c));
    assert(among.contains(c));
    lemma_position(among, c);
    assert(gets_queue(c, cores, ports[k], tx));
    lemma_tx_queues_of(c, cores, ports, tx);
    let list = tx_queues_of(c, cores, ports, tx);
    assert(list.contains(q));
    let b = choose|b: int| 0 <= b < list.len() && list[b] == q;
    assert(has_queue(cores, i, ports, rx, tx));
    lemma_assignment(cores, cores.len(), ports, rx, tx);
    let e = entry_of(cores, i, ports, rx, tx);
    assert(r.contains(e));
    let a = choose|a: int| 0 <= a < r.len() && r[a] == e;
    assert(r[a].2[b] == q);
}

/// Under `Numa` placement a core is given transmit queues only of ports on a
/// socket that it sits on.
pub proof fn law_numa_tx_stays_local(
    cores: Seq<CoreInfo>,
    ports: Seq<PortInfo>,
    rx: Affinity,
    tx: Affinity,
    a: int,
    b: int,
)
    requires
        tx == Affinity::Numa,
        0 <= a < setup_assignment(cores, ports, rx, tx).len(),
        0 <= b < setup_assignment(cores, ports, rx, tx)[a].2.len(),
    ensures
        sits_on(
            cores,
            setup_assignment(cores, ports, rx, tx)[a].0,
            setup_assignment(cores, ports, rx, tx)[a].2[b].port.socket,
        ),
{
    let r = setup_assignment(cores, ports, rx, tx);
    lemma_assignment(cores, cores.len(), ports, rx, tx);
    assert(entry_origin(cores, cores.len(), ports, rx, tx, r[a]));
    let i = choose|i: int|
        0 <= i < cores.len() && has_queue(cores, i, ports, rx, tx) && r[a] == #[trigger] entry_of(
            cores,
            i,
            ports,
            rx,
            tx,
        );
    let c = cores[i].id;
    let list = tx_queues_of(c, cores, ports, tx);
    lemma_tx_queues_of(c, cores, ports, tx);
    assert(tx_origin(c, cores, ports, tx, list[b]));
    let k = choose|k: int|
        0 <= k < ports.len() && gets_queue(c, cores, #[trigger] ports[k], tx) && list[b]
            == tx_handle(c, cores, ports[k], tx);
    let among = eligible(cores, ports[k].port.socket, tx);
    lemma_position(among, c);
    lemma_eligible(cores, ports[k].port.socket, tx);
    assert(among.contains(c));
}

/// Where the assignment holds transmit queue number `b` of entry number `a`:
/// the listed core and the port it comes from, with the core's place among
/// the port's eligible cores as the queue index.
proof fn lemma_tx_source(
    cores: Seq<CoreInfo>,
    ports: Seq<PortInfo>,
    rx: Affinity,
    tx: Affinity,
    a: int,
    b: int,
) -> (ik: (int, int))
    requires
        feasible(cores, ports, rx, tx),
        0 <= a < setup_assignment(cores, ports, rx, tx).len(),
        0 <= b < setup_assignment(cores, ports, rx, tx)[a].2.len(),
    ensures
        0 <= ik.0 < cores.len(),
        0 <= ik.1 < ports.len(),
        setup_assignment(cores, ports, rx, tx)[a].0 == cores[ik.0].id,
        setup_assignment(cores, ports, rx, tx)[a].2[b].port == ports[ik.1].port,
        setup_assignment(cores, ports, rx, tx)[a].2[b].queue_id == place(
            cores[ik.0].id,
            cores,
            ports[ik.1],
            tx,
        ),
        place(cores[ik.0].id, cores, ports[ik.1], tx) < eligible(
            cores,
            ports[ik.1].port.socket,
            tx,
        ).len(),
        eligible(cores, ports[ik.1].port.socket, tx)[place(
            cores[ik.0].id,
            cores,
            ports[ik.1],
            tx,
        )] == cores[ik.0].id,
{
    let r = setup_assignment(cores, ports, rx, tx);
    lemma_assignment(cores, cores.len(), ports, rx, tx);
    assert(entry_origin(cores, cores.len(), ports, rx, tx, r[a]));
    let i = choose|i: int|
        0 <= i < cores.len() && has_queue(cores, i, ports, rx, tx) && r[a] == #[trigger] entry_of(
            cores,
            i,
            ports,
            rx,
            tx,
        );
    let c = cores[i].id;
    let list = tx_queues_of(c, cores, ports, tx);
    lemma_tx_queues_of(c, cores, ports, tx);
    assert(tx_origin(c, cores, ports, tx, list[b]));
    let k = choose|k: int|
        0 <= k < ports.len() && gets_queue(c, cores, #[trigger] ports[k], tx) && list[b]
            == tx_handle(c, cores, ports[k], tx);
    lemma_feasible_port(cores, ports[k], rx, tx);
    lemma_position(eligible(cores, ports[k].port.socket, tx), c);
    (i, k)
}

/// The transmit queue indices of a port have no gap: each index below the
/// number of the port's eligible cores is given to a core, the one at that
/// place among them.
pub proof fn law_tx_indices_without_gap(
    cores: Seq<CoreInfo>,
    ports: Seq<PortInfo>,
    rx: Affinity,
    tx: Affinity,
    k: int,
    j: int,
)
    requires
        distinct_cores(cores),
        feasible(cores, ports, rx, tx),
        0 <= k < ports.len(),
        0 <= j < eligible(cores, ports[k].port.socket, tx).len(),
    ensures
        tx_given(
            setup_assignment(cores, ports, rx, tx),
            eligible(cores, ports[k].port.socket, tx)[j],
            TxQ { queue_id: j as u16, port: ports[k].port },
        ),
{
    let among = eligible(cores, ports[k].port.socket, tx);
    let c = among[j];
    lemma_eligible(cores, ports[k].port.socket, tx);
    assert(among.contains(c));
    assert(listed(cores, c)) by {
        if tx == Affinity::Numa {
            let i = choose|i: int|
                0 <= i < cores.len() && #[trigger] cores[i] == (CoreInfo {
                    id: c,
                    socket: ports[k].port.socket,
                });
            assert(cores[i].id == c);
        }
    }
    let i = choose|i: int| 0 <= i < cores.len() && (#[trigger] cores[i]).id == c;
    lemma_position(among, c);
    assert(position(among, c) == j);
    law_tx_given_where_eligible(cores, ports, rx, tx, i, k);
}

/// A listed core that is eligible for a port is given the transmit queue of
/// that port whose index is its place among the eligible cores.
pub proof fn law_tx_given_where_eligible(
    cores: Seq<CoreInfo>,
    ports: Seq<PortInfo>,
    rx: Affinity,
    tx: Affinity,
    i: int,
    k: int,
)
    requires
        0 <= i < cores.len(),
        0 <= k < ports.len(),
        gets_queue(cores[i].id, cores, ports[k], tx),
    ensures
        tx_given(
            setup_assignment(cores, ports, rx, tx),
            cores[i].id,
            tx_handle(cores[i].id, cores, ports[k], tx),
        ),
{
    let r = setup_assignment(cores, ports, rx, tx);
    let c = cores[i].id;
    let q = tx_handle(c, cores, ports[k], tx);
    lemma_tx_queues_of(c, cores, ports, tx);
    let list = tx_queues_of(c, cores, ports, tx);
    assert(list.contains(q));
    let b = choose|b: int| 0 <= b < list.len() && list[b] == q;
    assert(has_queue(cores, i, ports, rx, tx));
    lemma_assignment(cores, cores.len(), ports, rx, tx);
    let e = entry_of(cores, i, ports, rx, tx);
    assert(r.contains(e));
    let a = choose|a: int| 0 <= a < r.len() && r[a] == e;
    assert(r[a].2[b] == q);
}

/// Every transmit queue of a port that the assignment holds has an index
/// below the number of the port's eligible cores.
pub proof fn law_tx_indices_in_range(
    cores: Seq<CoreInfo>,
    ports: Seq<PortInfo>,
    rx: Affinity,
    tx: Affinity,
    k: int,
    a: int,
    b: int,
)
    requires
        distinct_ports(ports),
        feasible(cores, ports, rx, tx),
        0 <= k < ports.len(),
        0 <= a < setup_assignment(cores, ports, rx, tx).len(),
        0 <= b < setup_assignment(cores, ports, rx, tx)[a].2.len(),
        setup_assignment(cores, ports, rx, tx)[a].2[b].port == ports[k].port,
    ensures
        setup_assignment(cores, ports, rx, tx)[a].2[b].queue_id < eligible(
            cores,
            ports[k].port.socket,
            tx,
        ).len(),
{
    let ik = lemma_tx_source(cores, ports, rx, tx, a, b);
    if ik.1 < k {
        assert(ports[ik.1].port.port_id != ports[k].port.port_id);
    } else if k < ik.1 {
        assert(ports[k].port.port_id != ports[ik.1].port.port_id);
    }
}

/// The assignment holds no transmit queue twice: two places in it that hold
/// the same queue of the same port are one place.
pub proof fn law_tx_queues_unique(
    cores: Seq<CoreInfo>,
    ports: Seq<PortInfo>,
    rx: Affinity,
    tx: Affinity,
    a1: int,
    b1: int,
    a2: int,
    b2: int,
)
    requires
        distinct_cores(cores),
        distinct_ports(ports),
        feasible(cores, ports, rx, tx),
        0 <= a1 < setup_assignment(cores, ports, rx, tx).len(),
        0 <= b1 < setup_assignment(cores, ports, rx, tx)[a1].2.len(),
        0 <= a2 < setup_assignment(cores, ports, rx, tx).len(),
        0 <= b2 < setup_assignment(cores, ports, rx, tx)[a2].2.len(),
        setup_assignment(cores, ports, rx, tx)[a1].2[b1] == setup_assignment(
            cores,
            ports,
            rx,
            tx,
        )[a2].2[b2],
    ensures
        a1 == a2,
        b1 == b2,
{
    let r = setup_assignment(cores, ports, rx, tx);
    lemma_assignment(cores, cores.len(), ports, rx, tx);
    let s1 = lemma_tx_source(cores, ports, rx, tx, a1, b1);
    let s2 = lemma_tx_source(cores, ports, rx, tx, a2, b2);
    if s1.1 < s2.1 {
        assert(ports[s1.1].port.port_id != ports[s2.1].port.port_id);
    } else if s2.1 < s1.1 {
        assert(ports[s2.1].port.port_id != ports[s1.1].port.port_id);
    }
    assert(s1.1 == s2.1);
    assert(r[a1].0 == r[a2].0);
    if a1 < a2 {
        assert(r[a1].0 != r[a2].0);
    } else if a2 < a1 {
        assert(r[a2].0 != r[a1].0);
    }
    assert(entry_origin(cores, cores.len(), ports, rx, tx, r[a1]));
    let i = choose|i: int|
        0 <= i < cores.len() && has_queue(cores, i, ports, rx, tx) && r[a1] == #[trigger] entry_of(
            cores,
            i,
            ports,
            rx,
            tx,
        );
    lemma_tx_queues_of(cores[i].id, cores, ports, tx);
}

/// No two receive queues of the assignment share a buffer pool: two places
/// in it whose queues own a pool of the same name are one place.
pub proof fn law_pool_names_unique(
    cores: Seq<CoreInfo>,
    ports: Seq<PortInfo>,
    rx: Affinity,
    tx: Affinity,
    a1: int,
    b1: int,
    a2: int,
    b2: int,
)
    requires
        distinct_cores(cores),
        distinct_ports(ports),
        feasible(cores, ports, rx, tx),
        0 <= a1 < setup_assignment(cores, ports, rx, tx).len(),
        0 <= b1 < setup_assignment(cores, ports, rx, tx)[a1].1.len(),
        0 <= a2 < setup_assignment(cores, ports, rx, tx).len(),
        0 <= b2 < setup_assignment(cores, ports, rx, tx)[a2].1.len(),
        setup_assignment(cores, ports, rx, tx)[a1].1[b1].pool_name_spec() == setup_assignment(
            cores,
            ports,
            rx,
            tx,
        )[a2].1[b2].pool_name_spec(),
    ensures
        a1 == a2,
        b1 == b2,
{
    let r = setup_assignment(cores, ports, rx, tx);
    let q1 = r[a1].1[b1];
    let q2 = r[a2].1[b2];
    lemma_rx_pool_name_injective(
        q1.port.port_id as nat,
        q1.queue_id as nat,
        q2.port.port_id as nat,
        q2.queue_id as nat,
    );
    let s1 = lemma_rx_source(cores, ports, rx, tx, a1, b1);
    let s2 = lemma_rx_source(cores, ports, rx, tx, a2, b2);
    if s1.1 < s2.1 {
        assert(ports[s1.1].port.port_id != ports[s2.1].port.port_id);
    } else if s2.1 < s1.1 {
        assert(ports[s2.1].port.port_id != ports[s1.1].port.port_id);
    }
    assert(q1 == q2);
    law_rx_queues_unique(cores, ports, rx, tx, a1, b1, a2, b2);
}

/// Every operation of a setup is an operation on one of the ports, and
/// every operation on a port is in the setup.
pub proof fn lemma_setup_script(
    cores: Seq<CoreInfo>,
    ports: Seq<PortInfo>,
    rx: Affinity,
    tx: Affinity,
    action: HwAction,
)
    ensures
        setup_script(cores, ports, rx, tx).contains(action) <==> exists|k: int|
            0 <= k < ports.len() && port_script(
                #[trigger] ports[k],
                eligible(cores, ports[k].port.socket, rx).len(),
                eligible(cores, ports[k].port.socket, tx).len(),
            ).contains(action),
    decreases ports.len(),
{
    if ports.len() > 0 {
        let init = ports.drop_last();
        let last = ports.last();
        let rest = setup_script(cores, init, rx, tx);
        let tail = port_script(
            last,
            eligible(cores, last.port.socket, rx).len(),
            eligible(cores, last.port.socket, tx).len(),
        );
        lemma_setup_script(cores, init, rx, tx, action);
        lemma_add_contains(rest, tail, action);
        assert(ports[ports.len() - 1] == last);
        if rest.contains(action) {
            let k = choose|k: int|
                0 <= k < init.len() && port_script(
                    #[trigger] init[k],
                    eligible(cores, init[k].port.socket, rx).len(),
                    eligible(cores, init[k].port.socket, tx).len(),
                ).contains(action);
            assert(ports[k] == init[k]);
        }
        if exists|k: int|
            0 <= k < ports.len() && port_script(
                #[trigger] ports[k],
                eligible(cores, ports[k].port.socket, rx).len(),
                eligible(cores, ports[k].port.socket, tx).len(),
            ).contains(action) {
            let k = choose|k: int|
                0 <= k < ports.len() && port_script(
                    #[trigger] ports[k],
                    eligible(cores, ports[k].port.socket, rx).len(),
                    eligible(cores, ports[k].port.socket, tx).len(),
                ).contains(action);
            if k < init.len() {
                assert(init[k] == ports[k]);
            }
        }
    }
}

/// The operations on a port set up its receive queues with the indices
/// below their number, with the default ring, and no other receive queue.
pub proof fn lemma_port_script_rx(p: PortInfo, nrx: nat, ntx: nat, q: RxQ, nb_desc: u16)
    requires
        nrx <= u16::MAX,
        ntx <= u16::MAX,
    ensures
        port_script(p, nrx, ntx).contains(HwAction::SetupRxQueue { rxq: q, nb_desc }) <==> q.port
            == p.port && q.queue_id < nrx && nb_desc == DEFAULT_RX_DESC,
{
    let script = port_script(p, nrx, ntx);
    let action = HwAction::SetupRxQueue { rxq: q, nb_desc };
    if q.port == p.port && q.queue_id < nrx && nb_desc == DEFAULT_RX_DESC {
        assert(script[1 + q.queue_id as int] == action);
    }
    if script.contains(action) {
        let i = choose|i: int| 0 <= i < script.len() && script[i] == action;
        assert(0 <= i < 2 + nrx + ntx);
        if i == 0 {
        } else if i <= nrx {
            assert(script[i] == HwAction::SetupRxQueue {
                rxq: RxQ { queue_id: (i - 1) as u16, port: p.port },
                nb_desc: DEFAULT_RX_DESC,
            });
        } else if i <= nrx + ntx {
            assert(script[i] == HwAction::SetupTxQueue {
                txq: TxQ { queue_id: (i - 1 - nrx) as u16, port: p.port },
                nb_desc: DEFAULT_TX_DESC,
            });
        } else {
        }
    }
}

/// Every receive queue that the assignment hands to a core is set up by the
/// hardware operations of the setup.
pub proof fn law_assigned_rx_queue_is_set_up(
    cores: Seq<CoreInfo>,
    ports: Seq<PortInfo>,
    rx: Affinity,
    tx: Affinity,
    a: int,
    b: int,
)
    requires
        feasible(cores, ports, rx, tx),
        0 <= a < setup_assignment(cores, ports, rx, tx).len(),
        0 <= b < setup_assignment(cores, ports, rx, tx)[a].1.len(),
    ensures
        setup_script(cores, ports, rx, tx).contains(
            HwAction::SetupRxQueue {
                rxq: setup_assignment(cores, ports, rx, tx)[a].1[b],
                nb_desc: DEFAULT_RX_DESC,
            },
        ),
{
    let q = setup_assignment(cores, ports, rx, tx)[a].1[b];
    let ik = lemma_rx_source(cores, ports, rx, tx, a, b);
    let k = ik.1;
    lemma_feasible_port(cores, ports[k], rx, tx);
    let nrx = eligible(cores, ports[k].port.socket, rx).len();
    let ntx = eligible(cores, ports[k].port.socket, tx).len();
    lemma_port_script_rx(ports[k], nrx, ntx, q, DEFAULT_RX_DESC);
    lemma_setup_script(
        cores,
        ports,
        rx,
        tx,
        HwAction::SetupRxQueue { rxq: q, nb_desc: DEFAULT_RX_DESC },
    );
}

/// Every receive queue that the hardware operations of the setup set up is
/// handed to a core: the one at the place of the queue's index among the
/// cores eligible for the queue's port.
pub proof fn law_set_up_rx_queue_is_assigned(
    cores: Seq<CoreInfo>,
    ports: Seq<PortInfo>,
    rx: Affinity,
    tx: Affinity,
    q: RxQ,
    nb_desc: u16,
)
    requires
        distinct_cores(cores),
        feasible(cores, ports, rx, tx),
        setup_script(cores, ports, rx, tx).contains(HwAction::SetupRxQueue { rxq: q, nb_desc }),
    ensures
        q.queue_id < eligible(cores, q.port.socket, rx).len(),
        rx_given(
            setup_assignment(cores, ports, rx, tx),
            eligible(cores, q.port.socket, rx)[q.queue_id as int],
            q,
        ),
{
    let action = HwAction::SetupRxQueue { rxq: q, nb_desc };
    lemma_setup_script(cores, ports, rx, tx, action);
    let k = choose|k: int|
        0 <= k < ports.len() && port_script(
            #[trigger] ports[k],
            eligible(cores, ports[k].port.socket, rx).len(),
            eligible(cores, ports[k].port.socket, tx).len(),
        ).contains(action);
    lemma_feasible_port(cores, ports[k], rx, tx);
    let nrx = eligible(cores, ports[k].port.socket, rx).len();
    let ntx = eligible(cores, ports[k].port.socket, tx).len();
    lemma_port_script_rx(ports[k], nrx, ntx, q, nb_desc);
    law_rx_indices_without_gap(cores, ports, rx, tx, k, q.queue_id as int);
}

/// The operations on a port set up its transmit queues with the indices
/// below their number, with the default ring, and no other transmit queue.
pub proof fn lemma_port_script_tx(p: PortInfo, nrx: nat, ntx: nat, q: TxQ, nb_desc: u16)
    requires
        nrx <= u16::MAX,
        ntx <= u16::MAX,
    ensures
        port_script(p, nrx, ntx).contains(HwAction::SetupTxQueue { txq: q, nb_desc }) <==> q.port
            == p.port && q.queue_id < ntx && nb_desc == DEFAULT_TX_DESC,
{
    let script = port_script(p, nrx, ntx);
    let action = HwAction::SetupTxQueue { txq: q, nb_desc };
    if q.port == p.port && q.queue_id < ntx && nb_desc == DEFAULT_TX_DESC {
        assert(script[1 + nrx + q.queue_id as int] == action);
    }
    if script.contains(action) {
        let i = choose|i: int| 0 <= i < script.len() && script[i] == action;
        assert(0 <= i < 2 + nrx + ntx);
        if i == 0 {
        } else if i <= nrx {
            assert(script[i] == HwAction::SetupRxQueue {
                rxq: RxQ { queue_id: (i - 1) as u16, port: p.port },
                nb_desc: DEFAULT_RX_DESC,
            });
        } else if i <= nrx + ntx {
            assert(script[i] == HwAction::SetupTxQueue {
                txq: TxQ { queue_id: (i - 1 - nrx) as u16, port: p.port },
                nb_desc: DEFAULT_TX_DESC,
            });
        } else {
        }
    }
}

/// Every transmit queue that the assignment hands to a core is set up by the
/// hardware operations of the setup.
pub proof fn law_assigned_tx_queue_is_set_up(
    cores: Seq<CoreInfo>,
    ports: Seq<PortInfo>,
    rx: Affinity,
    tx: Affinity,
    a: int,
    b: int,
)
    requires
        feasible(cores, ports, rx, tx),
        0 <= a < setup_assignment(cores, ports, rx, tx).len(),
        0 <= b < setup_assignment(cores, ports, rx, tx)[a].2.len(),
    ensures
        setup_script(cores, ports, rx, tx).contains(
            HwAction::SetupTxQueue {
                txq: setup_assignment(cores, ports, rx, tx)[a].2[b],
                nb_desc: DEFAULT_TX_DESC,
            },
        ),
{
    let q = setup_assignment(cores, ports, rx, tx)[a].2[b];
    let ik = lemma_tx_source(cores, ports, rx, tx, a, b);
    let k = ik.1;
    lemma_feasible_port(cores, ports[k], rx, tx);
    let nrx = eligible(cores, ports[k].port.socket, rx).len();
    let ntx = eligible(cores, ports[k].port.socket, tx).len();
    lemma_port_script_tx(ports[k], nrx, ntx, q, DEFAULT_TX_DESC);
    lemma_setup_script(
        cores,
        ports,
        rx,
        tx,
        HwAction::SetupTxQueue { txq: q, nb_desc: DEFAULT_TX_DESC },
    );
}

/// Every transmit queue that the hardware operations of the setup set up is
/// handed to a core: the one at the place of the queue's index among the
/// cores eligible for the queue's port.
pub proof fn law_set_up_tx_queue_is_assigned(
    cores: Seq<CoreInfo>,
    ports: Seq<PortInfo>,
    rx: Affinity,
    tx: Affinity,
    q: TxQ,
    nb_desc: u16,
)
    requires
        distinct_cores(cores),
        feasible(cores, ports, rx, tx),
        setup_script(cores, ports, rx, tx).contains(HwAction::SetupTxQueue { txq: q, nb_desc }),
    ensures
        q.queue_id < eligible(cores, q.port.socket, tx).len(),
        tx_given(
            setup_assignment(cores, ports, rx, tx),
            eligible(cores, q.port.socket, tx)[q.queue_id as int],
            q,
        ),
{
    let action = HwAction::SetupTxQueue { txq: q, nb_desc };
    lemma_setup_script(cores, ports, rx, tx, action);
    let k = choose|k: int|
        0 <= k < ports.len() && port_script(
            #[trigger] ports[k],
            eligible(cores, ports[k].port.socket, rx).len(),
            eligible(cores, ports[k].port.socket, tx).len(),
        ).contains(action);
    lemma_feasible_port(cores, ports[k], rx, tx);
    let nrx = eligible(cores, ports[k].port.socket, rx).len();
    let ntx = eligible(cores, ports[k].port.socket, tx).len();
    lemma_port_script_tx(ports[k], nrx, ntx, q, nb_desc);
    law_tx_indices_without_gap(cores, ports, rx, tx, k, q.queue_id as int);
}

/// A port that is eligible for more queues than it has, or than a queue
/// index can number, makes the whole setup infeasible: `check_setup` names a
/// fault, and neither `Eal::setup` nor `hardware_script` can be called, so
/// that no assignment is made, no operation is carried out and setup is not
/// marked as done.
pub proof fn law_queue_limit_is_a_fault(
    cores: Seq<CoreInfo>,
    ports: Seq<PortInfo>,
    rx: Affinity,
    tx: Affinity,
    k: int,
)
    requires
        0 <= k < ports.len(),
        ({
            let nrx = eligible(cores, ports[k].port.socket, rx).len();
            let ntx = eligible(cores, ports[k].port.socket, tx).len();
            ||| nrx > ports[k].dev.max_rx_queues
            ||| ntx > ports[k].dev.max_tx_queues
            ||| nrx > u16::MAX
            ||| ntx > u16::MAX
        }),
    ensures
        port_fault(cores, ports[k], rx, tx).is_some(),
        !feasible(cores, ports, rx, tx),
        setup_fault(cores, ports, rx, tx).is_some(),
{
    lemma_setup_fault(cores, ports, rx, tx);
}

/// The fault that `check_setup` names is that of the first port at fault:
/// every port before it can be set up.
pub proof fn law_first_fault(cores: Seq<CoreInfo>, ports: Seq<PortInfo>, rx: Affinity, tx: Affinity) -> (k:
    int)
    requires
        setup_fault(cores, ports, rx, tx).is_some(),
    ensures
        0 <= k < ports.len(),
        port_fault(cores, ports[k], rx, tx) == Some(setup_fault(cores, ports, rx, tx).unwrap().kind),
        setup_fault(cores, ports, rx, tx).unwrap().port_id == ports[k].port.port_id,
        feasible(cores, ports.take(k), rx, tx),
    decreases ports.len(),
{
    let init = ports.drop_last();
    if setup_fault(cores, init, rx, tx).is_some() {
        let k = law_first_fault(cores, init, rx, tx);
        assert(init[k] == ports[k]);
        assert(init.take(k) =~= ports.take(k));
        k
    } else {
        lemma_setup_fault(cores, init, rx, tx);
        assert(ports.take(ports.len() - 1) =~= init);
        assert(ports[ports.len() - 1] == ports.last());
        ports.len() - 1
    }
}

/// Every operation on a port is on that port.
pub proof fn lemma_port_script_port(p: PortInfo, nrx: nat, ntx: nat, i: int)
    requires
        0 <= i < port_script(p, nrx, ntx).len(),
    ensures
        port_script(p, nrx, ntx)[i].port() == p.port,
{
    let script = port_script(p, nrx, ntx);
    if i == 0 {
    } else if i <= nrx {
        assert(script[i] == HwAction::SetupRxQueue {
            rxq: RxQ { queue_id: (i - 1) as u16, port: p.port },
            nb_desc: DEFAULT_RX_DESC,
        });
    } else if i <= nrx + ntx {
        assert(script[i] == HwAction::SetupTxQueue {
            txq: TxQ { queue_id: (i - 1 - nrx) as u16, port: p.port },
            nb_desc: DEFAULT_TX_DESC,
        });
    } else {
    }
}

/// The operations on the ports before port number `k` hold none on that
/// port: when a port turns out to be at fault, nothing has been done to it.
pub proof fn law_operations_before_a_port_spare_it(
    cores: Seq<CoreInfo>,
    ports: Seq<PortInfo>,
    rx: Affinity,
    tx: Affinity,
    k: int,
    i: int,
)
    requires
        distinct_ports(ports),
        0 <= k < ports.len(),
        0 <= i < setup_script(cores, ports.take(k), rx, tx).len(),
    ensures
        setup_script(cores, ports.take(k), rx, tx)[i].port() != ports[k].port,
{
    let before = ports.take(k);
    let script = setup_script(cores, before, rx, tx);
    let action = script[i];
    lemma_setup_script(cores, before, rx, tx, action);
    assert(script.contains(action));
    let j = choose|j: int|
        0 <= j < before.len() && port_script(
            #[trigger] before[j],
            eligible(cores, before[j].port.socket, rx).len(),
            eligible(cores, before[j].port.socket, tx).len(),
        ).contains(action);
    let part = port_script(
        before[j],
        eligible(cores, before[j].port.socket, rx).len(),
        eligible(cores, before[j].port.socket, tx).len(),
    );
    let at = choose|at: int| 0 <= at < part.len() && part[at] == action;
    lemma_port_script_port(
        before[j],
        eligible(cores, before[j].port.socket, rx).len(),
        eligible(cores, before[j].port.socket, tx).len(),
        at,
    );
    assert(before[j] == ports[j]);
    assert(ports[j].port.port_id != ports[k].port.port_id);
}

} // verus!
