//! The hardware operations that realise a queue assignment, in the order in
//! which they have to be carried out.

use vstd::prelude::*;
use crate::assign::{eligible, feasible, lemma_eligible_in, lemma_feasible_port, extract_rxtx_lcores};
use crate::ids::Affinity;
use crate::port::{
    configure_port, port_conf, Port, PortConf, PortInfo, DEFAULT_PROMISC, DEFAULT_RX_DESC,
    DEFAULT_TX_DESC,
};
use crate::queue::{RxQ, TxQ};
use crate::topology::{lemma_socket_map_lookup, CoreInfo, SocketMap};

verus! {

/// One operation on the hardware. Any status but success that the hardware
/// answers an operation with is fatal.
#[derive(Debug, Clone, Copy, PartialEq, Eq, Structural)]
pub enum HwAction {
    /// Apply `conf` to the port, with that many queues.
    ConfigurePort {
        /// The port.
        port: Port,
        /// Number of receive queues.
        nb_rx_queue: u16,
        /// Number of transmit queues.
        nb_tx_queue: u16,
        /// The configuration.
        conf: PortConf,
    },
    /// Create the pool of the receive queue on the port's socket, then bind
    /// the queue to it with a ring of `nb_desc` descriptors.
    SetupRxQueue {
        /// The queue.
        rxq: RxQ,
        /// Size of its ring.
        nb_desc: u16,
    },
    /// Bind the transmit queue with a ring of `nb_desc` descriptors.
    SetupTxQueue {
        /// The queue.
        txq: TxQ,
        /// Size of its ring.
        nb_desc: u16,
    },
    /// Switch promiscuous mode on or off, then bring the port up.
    StartPort {
        /// The port.
        port: Port,
        /// Whether the port accepts frames addressed to others.
        promiscuous: bool,
    },
}

impl HwAction {
    /// The port that the operation is on.
    pub open spec fn port(self) -> Port {
        match self {
            HwAction::ConfigurePort { port, .. } => port,
            HwAction::SetupRxQueue { rxq, .. } => rxq.port,
            HwAction::SetupTxQueue { txq, .. } => txq.port,
            HwAction::StartPort { port, .. } => port,
        }
    }
}

/// The operations on one port that gets `nrx` receive and `ntx` transmit
/// queues: configure it, set up its receive queues by rising index, then its
/// transmit queues by rising index, then start it.
pub open spec fn port_script(p: PortInfo, nrx: nat, ntx: nat) -> Seq<HwAction> {
    seq![
        HwAction::ConfigurePort {
            port: p.port,
            nb_rx_queue: nrx as u16,
            nb_tx_queue: ntx as u16,
            conf: port_conf(p.dev, nrx as int),
        },
    ] + Seq::new(
        nrx,
        |j: int|
            HwAction::SetupRxQueue {
                rxq: RxQ { queue_id: j as u16, port: p.port },
                nb_desc: DEFAULT_RX_DESC,
            },
    ) + Seq::new(
        ntx,
        |j: int|
            HwAction::SetupTxQueue {
                txq: TxQ { queue_id: j as u16, port: p.port },
                nb_desc: DEFAULT_TX_DESC,
            },
    ) + seq![HwAction::StartPort { port: p.port, promiscuous: DEFAULT_PROMISC }]
}

/// The operations of a whole setup: those of each port, port after port.
pub open spec fn setup_script(
    cores: Seq<CoreInfo>,
    ports: Seq<PortInfo>,
    rx: Affinity,
    tx: Affinity,
) -> Seq<HwAction>
    decreases ports.len(),
{
    if ports.len() == 0 {
        Seq::empty()
    } else {
        setup_script(cores, ports.drop_last(), rx, tx) + port_script(
            ports.last(),
            eligible(cores, ports.last().port.socket, rx).len(),
            eligible(cores, ports.last().port.socket, tx).len(),
        )
    }
}

/// The operation that sets up receive queue number `rxq_idx` of `port`.
pub fn configure_rxq(port: &Port, rxq_idx: usize) -> (action: HwAction)
    requires
        rxq_idx <= u16::MAX,
    ensures
        action == (HwAction::SetupRxQueue {
            rxq: RxQ { queue_id: rxq_idx as u16, port: *port },
            nb_desc: DEFAULT_RX_DESC,
        }),
{
    HwAction::SetupRxQueue {
        rxq: RxQ { queue_id: rxq_idx as u16, port: *port },
        nb_desc: DEFAULT_RX_DESC,
    }
}

/// The operation that sets up transmit queue number `txq_idx` of `port`.
pub fn configure_txq(port: &Port, txq_idx: usize) -> (action: HwAction)
    requires
        txq_idx <= u16::MAX,
    ensures
        action == (HwAction::SetupTxQueue {
            txq: TxQ { queue_id: txq_idx as u16, port: *port },
            nb_desc: DEFAULT_TX_DESC,
        }),
{
    HwAction::SetupTxQueue {
        txq: TxQ { queue_id: txq_idx as u16, port: *port },
        nb_desc: DEFAULT_TX_DESC,
    }
}

/// The operation that starts `port`.
pub fn start_port(port: &Port) -> (action: HwAction)
    ensures
        action == (HwAction::StartPort { port: *port, promiscuous: DEFAULT_PROMISC }),
{
    HwAction::StartPort { port: *port, promiscuous: DEFAULT_PROMISC }
}

/// Appends the operations on one port to `script`.
fn push_port_script(script: &mut Vec<HwAction>, p: &PortInfo, nrx: usize, ntx: usize)
    requires
        crate::port::within_limits(p.dev, nrx as int, ntx as int),
    ensures
        final(script)@ == old(script)@ + port_script(*p, nrx as nat, ntx as nat),
{
    let ghost before = script@;
    let conf = configure_port(&p.dev, nrx, ntx);
    script.push(
        HwAction::ConfigurePort {
            port: p.port,
            nb_rx_queue: nrx as u16,
            nb_tx_queue: ntx as u16,
            conf,
        },
    );
    let ghost head = script@;
    let mut j: usize = 0;
    while j < nrx
        invariant
            j <= nrx <= u16::MAX,
            script@ == head + Seq::new(
                j as nat,
                |j: int|
                    HwAction::SetupRxQueue {
                        rxq: RxQ { queue_id: j as u16, port: p.port },
                        nb_desc: DEFAULT_RX_DESC,
                    },
            ),
        decreases nrx - j,
    {
        script.push(configure_rxq(&p.port, j));
        j += 1;
    }
    let ghost with_rx = script@;
    let mut j: usize = 0;
    while j < ntx
        invariant
            j <= ntx <= u16::MAX,
            script@ == with_rx + Seq::new(
                j as nat,
                |j: int|
                    HwAction::SetupTxQueue {
                        txq: TxQ { queue_id: j as u16, port: p.port },
                        nb_desc: DEFAULT_TX_DESC,
                    },
            ),
        decreases ntx - j,
    {
        script.push(configure_txq(&p.port, j));
        j += 1;
    }
    script.push(start_port(&p.port));
    proof {
        assert(script@ =~= before + port_script(*p, nrx as nat, ntx as nat));
    }
}

/// The hardware operations of a setup, in order.
pub fn hardware_script(cores: &Vec<CoreInfo>, ports: &Vec<PortInfo>, rx: Affinity, tx: Affinity) -> (script:
    Vec<HwAction>)
    requires
        feasible(cores@, ports@, rx, tx),
    ensures
        script@ == setup_script(cores@, ports@, rx, tx),
{
    let map = SocketMap::build(cores);
    let mut script: Vec<HwAction> = Vec::new();
    let mut k: usize = 0;
    while k < ports.len()
        invariant
            k <= ports.len(),
            map.maps(cores@),
            feasible(cores@, ports@, rx, tx),
            script@ == setup_script(cores@, ports@.take(k as int), rx, tx),
        decreases ports.len() - k,
    {
        let p = &ports[k];
        proof {
            assert(ports@.take(k + 1).drop_last() =~= ports@.take(k as int));
            assert(ports@[k as int] == *p);
            lemma_feasible_port(cores@, *p, rx, tx);
            lemma_socket_map_lookup(cores@, p.port.socket);
            lemma_eligible_in(cores@, p.port.socket, rx);
            lemma_eligible_in(cores@, p.port.socket, tx);
        }
        let (rx_cpus, tx_cpus) = extract_rxtx_lcores(&p.port, &map, rx, tx);
        push_port_script(&mut script, p, rx_cpus.len(), tx_cpus.len());
        k += 1;
    }
    proof {
        assert(ports@.take(k as int) =~= ports@);
    }
    script
}

} // verus!
