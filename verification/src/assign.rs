//! Which core gets which queue of which port.

use vstd::prelude::*;
use crate::ids::{Affinity, LCoreId, SocketId};
use crate::port::{check_limits, limit_fault, within_limits, LimitFault, Port, PortInfo};
use crate::queue::{RxQ, TxQ};
use crate::topology::{
    all_cores, cores_on, group_cores, lemma_position, lemma_socket_map_lookup, position,
    socket_map, CoreInfo, SocketMap,
};

verus! {

/// The cores that get a queue of a port on `socket`, in the order of their
/// queue indices: under `Full` every core; under `Numa` the cores on the
/// port's own socket. Either way in the order in which the cores are
/// listed, which for enumerated cores is by rising identifier.
pub open spec fn eligible(cores: Seq<CoreInfo>, socket: SocketId, affinity: Affinity) -> Seq<
    LCoreId,
> {
    match affinity {
        Affinity::Full => all_cores(cores),
        Affinity::Numa => cores_on(cores, socket),
    }
}

/// Why the queues of a port cannot be set up.
#[derive(Debug, Clone, Copy, PartialEq, Eq, Structural)]
pub enum FaultKind {
    /// Receive queues go to the port's own socket, which holds no core.
    NoRxCore,
    /// Transmit queues go to the port's own socket, which holds no core.
    NoTxCore,
    /// The port's limits do not admit the queues.
    Limit(LimitFault),
}

/// A port whose queues cannot be set up, and why.
#[derive(Debug, Clone, Copy, PartialEq, Eq, Structural)]
pub struct SetupFault {
    /// The port.
    pub port_id: u16,
    /// What is wrong.
    pub kind: FaultKind,
}

/// What is wrong with setting up port `p`, if anything; where several things
/// are, the first.
pub open spec fn port_fault(cores: Seq<CoreInfo>, p: PortInfo, rx: Affinity, tx: Affinity) -> Option<
    FaultKind,
> {
    let on_socket = cores_on(cores, p.port.socket);
    if rx == Affinity::Numa && on_socket.len() == 0 {
        Some(FaultKind::NoRxCore)
    } else if tx == Affinity::Numa && on_socket.len() == 0 {
        Some(FaultKind::NoTxCore)
    } else {
        match limit_fault(
            p.dev,
            eligible(cores, p.port.socket, rx).len() as int,
            eligible(cores, p.port.socket, tx).len() as int,
        ) {
            Some(l) => Some(FaultKind::Limit(l)),
            None => None,
        }
    }
}

/// Whether every port in `ports` can be set up.
pub open spec fn feasible(cores: Seq<CoreInfo>, ports: Seq<PortInfo>, rx: Affinity, tx: Affinity) -> bool {
    forall|k: int| 0 <= k < ports.len() ==> port_fault(cores, #[trigger] ports[k], rx, tx).is_none()
}

/// The first port in `ports` that cannot be set up, with the reason.
pub open spec fn setup_fault(
    cores: Seq<CoreInfo>,
    ports: Seq<PortInfo>,
    rx: Affinity,
    tx: Affinity,
) -> Option<SetupFault>
    decreases ports.len(),
{
    if ports.len() == 0 {
        None
    } else {
        match setup_fault(cores, ports.drop_last(), rx, tx) {
            Some(f) => Some(f),
            None => match port_fault(cores, ports.last(), rx, tx) {
                Some(kind) => Some(SetupFault { port_id: ports.last().port.port_id, kind }),
                None => None,
            },
        }
    }
}

/// Setup is feasible exactly when no port is at fault.
pub proof fn lemma_setup_fault(cores: Seq<CoreInfo>, ports: Seq<PortInfo>, rx: Affinity, tx: Affinity)
    ensures
        setup_fault(cores, ports, rx, tx).is_none() <==> feasible(cores, ports, rx, tx),
    decreases ports.len(),
{
    if ports.len() > 0 {
        let init = ports.drop_last();
        lemma_setup_fault(cores, init, rx, tx);
        if feasible(cores, ports, rx, tx) {
            assert forall|k: int| 0 <= k < init.len() implies port_fault(
                cores,
                #[trigger] init[k],
                rx,
                tx,
            ).is_none() by {
                assert(init[k] == ports[k]);
            }
            assert(ports[ports.len() - 1] == ports.last());
        }
        if setup_fault(cores, ports, rx, tx).is_none() {
            assert forall|k: int| 0 <= k < ports.len() implies port_fault(
                cores,
                #[trigger] ports[k],
                rx,
                tx,
            ).is_none() by {
                if k < init.len() {
                    assert(init[k] == ports[k]);
                }
            }
        }
    }
}

/// A feasible port keeps within its limits with the queues it is given.
pub proof fn lemma_feasible_port(cores: Seq<CoreInfo>, p: PortInfo, rx: Affinity, tx: Affinity)
    requires
        port_fault(cores, p, rx, tx).is_none(),
    ensures
        within_limits(
            p.dev,
            eligible(cores, p.port.socket, rx).len() as int,
            eligible(cores, p.port.socket, tx).len() as int,
        ),
        rx == Affinity::Numa ==> eligible(cores, p.port.socket, rx).len() > 0,
        tx == Affinity::Numa ==> eligible(cores, p.port.socket, tx).len() > 0,
{
    crate::port::lemma_limit_fault(
        p.dev,
        eligible(cores, p.port.socket, rx).len() as int,
        eligible(cores, p.port.socket, tx).len() as int,
    );
}

/// The receive queues of core `core`: one of each port in `ports` that it is
/// eligible for, port after port. Its queue index on a port is its place
/// among the port's eligible cores.
pub open spec fn rx_queues_of(
    core: LCoreId,
    cores: Seq<CoreInfo>,
    ports: Seq<PortInfo>,
    rx: Affinity,
) -> Seq<RxQ>
    decreases ports.len(),
{
    if ports.len() == 0 {
        Seq::empty()
    } else {
        let rest = rx_queues_of(core, cores, ports.drop_last(), rx);
        let port = ports.last().port;
        let among = eligible(cores, port.socket, rx);
        let place = position(among, core);
        if place < among.len() {
            rest.push(RxQ { queue_id: place as u16, port })
        } else {
            rest
        }
    }
}

/// The transmit queues of core `core`: one of each port in `ports` that it
/// is eligible for, port after port. Its queue index on a port is its place
/// among the port's eligible cores.
pub open spec fn tx_queues_of(
    core: LCoreId,
    cores: Seq<CoreInfo>,
    ports: Seq<PortInfo>,
    tx: Affinity,
) -> Seq<TxQ>
    decreases ports.len(),
{
    if ports.len() == 0 {
        Seq::empty()
    } else {
        let rest = tx_queues_of(core, cores, ports.drop_last(), tx);
        let port = ports.last().port;
        let among = eligible(cores, port.socket, tx);
        let place = position(among, core);
        if place < among.len() {
            rest.push(TxQ { queue_id: place as u16, port })
        } else {
            rest
        }
    }
}

/// The queues of the first `n` cores of `cores`: for each core that gets at
/// least one queue, in the order the cores are listed, the core with its
/// receive queues and its transmit queues.
pub open spec fn assignment(
    cores: Seq<CoreInfo>,
    n: nat,
    ports: Seq<PortInfo>,
    rx: Affinity,
    tx: Affinity,
) -> Seq<(LCoreId, Seq<RxQ>, Seq<TxQ>)>
    decreases n,
{
    if n == 0 || n > cores.len() {
        Seq::empty()
    } else {
        let rest = assignment(cores, (n - 1) as nat, ports, rx, tx);
        let core = cores[n - 1].id;
        let rxqs = rx_queues_of(core, cores, ports, rx);
        let txqs = tx_queues_of(core, cores, ports, tx);
        if rxqs.len() + txqs.len() > 0 {
            rest.push((core, rxqs, txqs))
        } else {
            rest
        }
    }
}

/// The whole assignment as a value.
pub open spec fn setup_assignment(
    cores: Seq<CoreInfo>,
    ports: Seq<PortInfo>,
    rx: Affinity,
    tx: Affinity,
) -> Seq<(LCoreId, Seq<RxQ>, Seq<TxQ>)> {
    assignment(cores, cores.len(), ports, rx, tx)
}

/// What a list of per-core queue handles holds.
pub open spec fn assignment_view(r: Seq<(LCoreId, Vec<RxQ>, Vec<TxQ>)>) -> Seq<
    (LCoreId, Seq<RxQ>, Seq<TxQ>),
> {
    r.map_values(|e: (LCoreId, Vec<RxQ>, Vec<TxQ>)| (e.0, e.1@, e.2@))
}

/// The eligible cores read off a socket map with groups `groups` that
/// lists the cores `every`.
pub open spec fn eligible_in(
    groups: Seq<(SocketId, Seq<LCoreId>)>,
    every: Seq<LCoreId>,
    socket: SocketId,
    affinity: Affinity,
) -> Seq<LCoreId> {
    match affinity {
        Affinity::Full => every,
        Affinity::Numa => match group_cores(groups, socket) {
            Some(on) => on,
            None => Seq::empty(),
        },
    }
}

/// Read off the socket map of `cores`, the eligible cores are those of
/// `eligible`.
pub proof fn lemma_eligible_in(cores: Seq<CoreInfo>, socket: SocketId, affinity: Affinity)
    ensures
        eligible_in(socket_map(cores), all_cores(cores), socket, affinity) == eligible(
            cores,
            socket,
            affinity,
        ),
{
    lemma_socket_map_lookup(cores, socket);
    if cores_on(cores, socket).len() == 0 {
        assert(cores_on(cores, socket) =~= Seq::<LCoreId>::empty());
    }
}

/// A copy of `list`.
fn copy_cores(list: &Vec<LCoreId>) -> (r: Vec<LCoreId>)
    ensures
        r@ == list@,
{
    let mut r: Vec<LCoreId> = Vec::new();
    let mut i: usize = 0;
    while i < list.len()
        invariant
            i <= list.len(),
            r@ == list@.take(i as int),
        decreases list.len() - i,
    {
        r.push(list[i]);
        proof {
            assert(list@.take(i + 1) =~= list@.take(i as int).push(list@[i as int]));
        }
        i += 1;
    }
    proof {
        assert(list@.take(i as int) =~= list@);
    }
    r
}

/// The cores that get the receive queues and the transmit queues of `port`.
pub fn extract_rxtx_lcores(port: &Port, map: &SocketMap, rx: Affinity, tx: Affinity) -> (r: (
    Vec<LCoreId>,
    Vec<LCoreId>,
))
    requires
        rx == Affinity::Numa || tx == Affinity::Numa ==> group_cores(map@, port.socket).is_some(),
    ensures
        r.0@ == eligible_in(map@, map.every(), port.socket, rx),
        r.1@ == eligible_in(map@, map.every(), port.socket, tx),
{
    let socket_id = port.socket_id();
    let rx_cpus = match rx {
        Affinity::Full => map.all_cores(),
        Affinity::Numa => match map.get(socket_id) {
            Some(on) => copy_cores(on),
            None => Vec::new(),
        },
    };
    let tx_cpus = match tx {
        Affinity::Full => map.all_cores(),
        Affinity::Numa => match map.get(socket_id) {
            Some(on) => copy_cores(on),
            None => Vec::new(),
        },
    };
    (rx_cpus, tx_cpus)
}

/// The first place of `core` in `list`, or the length of `list` where it is
/// not in it.
pub fn place_of(list: &Vec<LCoreId>, core: LCoreId) -> (r: usize)
    ensures
        r == position(list@, core),
        r <= list.len(),
{
    let mut i: usize = 0;
    while i < list.len()
        invariant
            i <= list.len(),
            forall|k: int| 0 <= k < i ==> list@[k] != core,
        decreases list.len() - i,
    {
        if list[i] == core {
            proof {
                lemma_position(list@, core);
            }
            return i;
        }
        i += 1;
    }
    proof {
        lemma_position(list@, core);
    }
    i
}

/// What is wrong with setting up port `p`, if anything.
pub fn check_port(cores: &Vec<CoreInfo>, map: &SocketMap, p: &PortInfo, rx: Affinity, tx: Affinity) -> (r:
    Option<FaultKind>)
    requires
        map.maps(cores@),
    ensures
        r == port_fault(cores@, *p, rx, tx),
{
    proof {
        lemma_socket_map_lookup(cores@, p.port.socket);
        lemma_eligible_in(cores@, p.port.socket, rx);
        lemma_eligible_in(cores@, p.port.socket, tx);
    }
    let local = map.get(p.port.socket).is_some();
    if matches!(rx, Affinity::Numa) && !local {
        return Some(FaultKind::NoRxCore);
    }
    if matches!(tx, Affinity::Numa) && !local {
        return Some(FaultKind::NoTxCore);
    }
    let (rx_cpus, tx_cpus) = extract_rxtx_lcores(&p.port, map, rx, tx);
    match check_limits(&p.dev, rx_cpus.len(), tx_cpus.len()) {
        Some(l) => Some(FaultKind::Limit(l)),
        None => None,
    }
}

/// The first port in `ports` that cannot be set up, with the reason; `None`
/// where every port can.
pub fn check_setup(cores: &Vec<CoreInfo>, ports: &Vec<PortInfo>, rx: Affinity, tx: Affinity) -> (r:
    Option<SetupFault>)
    ensures
        r == setup_fault(cores@, ports@, rx, tx),
        r.is_none() <==> feasible(cores@, ports@, rx, tx),
{
    let map = SocketMap::build(cores);
    let mut k: usize = 0;
    while k < ports.len()
        invariant
            k <= ports.len(),
            map.maps(cores@),
            setup_fault(cores@, ports@.take(k as int), rx, tx).is_none(),
        decreases ports.len() - k,
    {
        proof {
            assert(ports@.take(k + 1).drop_last() =~= ports@.take(k as int));
        }
        match check_port(cores, &map, &ports[k], rx, tx) {
            Some(kind) => {
                proof {
                    lemma_setup_fault_prefix(cores@, ports@, (k + 1) as nat, rx, tx);
                    lemma_setup_fault(cores@, ports@, rx, tx);
                }
                return Some(SetupFault { port_id: ports[k].port.port_id, kind });
            },
            None => {},
        }
        k += 1;
    }
    proof {
        assert(ports@.take(k as int) =~= ports@);
        lemma_setup_fault(cores@, ports@, rx, tx);
    }
    None
}

/// A fault found among the first `n` ports is the fault of the whole list.
pub proof fn lemma_setup_fault_prefix(
    cores: Seq<CoreInfo>,
    ports: Seq<PortInfo>,
    n: nat,
    rx: Affinity,
    tx: Affinity,
)
    requires
        n <= ports.len(),
        setup_fault(cores, ports.take(n as int), rx, tx).is_some(),
    ensures
        setup_fault(cores, ports, rx, tx) == setup_fault(cores, ports.take(n as int), rx, tx),
    decreases ports.len() - n,
{
    if n < ports.len() {
        assert(ports.take(n as int + 1).drop_last() =~= ports.take(n as int));
        lemma_setup_fault_prefix(cores, ports, n + 1, rx, tx);
    } else {
        assert(ports.take(n as int) =~= ports);
    }
}

} // verus!
