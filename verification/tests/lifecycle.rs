use dpdk::eal::{cleanup_outcome, CleanupOutcome};
use dpdk::ids::SocketId;
use dpdk::lifecycle::{teardown_outcome, Ledger, ResourceKind, Teardown, TeardownOutcome};
use dpdk::port::Port;
use dpdk::queue::{RxQ, TxQ};

fn port0() -> Port {
    Port { port_id: 0, socket: SocketId::new(0) }
}

#[test]
fn fresh_ledger_holds_the_runtime() {
    let ledger = Ledger::new();
    assert_eq!(ledger.len(), 1);
    assert!(ledger.is_alive(0));
    assert!(!ledger.is_alive(1));
    let n = ledger.node(0).unwrap();
    assert_eq!(n.kind, ResourceKind::Runtime);
    assert_eq!(n.handles, 1);
    assert_eq!(ledger.node(1), None);
}

#[test]
fn runtime_alone_is_torn_down_on_release() {
    let mut ledger = Ledger::new();
    let torn = ledger.release(0);
    assert_eq!(torn, vec![Teardown { node: 0, kind: ResourceKind::Runtime }]);
    assert!(!ledger.is_alive(0));
    // Nothing is left to give back, and nothing can be added.
    assert!(ledger.release(0).is_empty());
    assert_eq!(ledger.open_port(port0()), None);
    assert_eq!(ledger.create_pool(), None);
    assert!(!ledger.acquire(0));
}

#[test]
fn queue_released_before_port_leaves_port_alive() {
    let mut ledger = Ledger::new();
    let port = ledger.open_port(port0()).unwrap();
    let pool = ledger.create_pool().unwrap();
    let rxq = RxQ { queue_id: 0, port: port0() };
    let queue = ledger.bind_rx_queue(port, pool, rxq).unwrap();
    assert_eq!((port, pool, queue), (1, 2, 3));
    // The queue takes over the pool: the caller's handle goes.
    assert!(ledger.release(pool).is_empty());
    assert!(ledger.is_alive(pool));
    let torn = ledger.release(queue);
    assert_eq!(
        torn,
        vec![
            Teardown { node: 3, kind: ResourceKind::RxQueue(rxq) },
            Teardown { node: 2, kind: ResourceKind::Pool },
        ]
    );
    assert!(ledger.is_alive(port));
    assert!(ledger.is_alive(0));
    assert!(!ledger.is_alive(queue));
    assert!(!ledger.is_alive(pool));
    assert_eq!(ledger.node(port).unwrap().handles, 1);
}

#[test]
fn runtime_outlives_its_handle_while_a_queue_lives() {
    let mut ledger = Ledger::new();
    let port = ledger.open_port(port0()).unwrap();
    let txq = TxQ { queue_id: 2, port: port0() };
    let queue = ledger.bind_tx_queue(port, txq).unwrap();
    assert!(ledger.release(0).is_empty());
    assert!(ledger.is_alive(0));
    assert!(ledger.release(port).is_empty());
    assert!(ledger.is_alive(port));
    assert!(ledger.is_alive(0));
    // The last handle goes: everything is torn down, dependants first.
    let torn = ledger.release(queue);
    assert_eq!(
        torn,
        vec![
            Teardown { node: 2, kind: ResourceKind::TxQueue(txq) },
            Teardown { node: 1, kind: ResourceKind::Port(port0()) },
            Teardown { node: 0, kind: ResourceKind::Runtime },
        ]
    );
    assert!(!ledger.is_alive(0));
}

#[test]
fn cloned_handle_keeps_the_resource() {
    let mut ledger = Ledger::new();
    let port = ledger.open_port(port0()).unwrap();
    assert!(ledger.acquire(port));
    assert_eq!(ledger.node(port).unwrap().handles, 2);
    assert!(ledger.release(port).is_empty());
    assert!(ledger.is_alive(port));
    assert_eq!(
        ledger.release(port),
        vec![Teardown { node: 1, kind: ResourceKind::Port(port0()) }]
    );
    assert!(!ledger.is_alive(port));
    assert!(ledger.is_alive(0));
    assert!(!ledger.acquire(port));
    assert!(!ledger.acquire(17));
    assert!(ledger.release(17).is_empty());
}

#[test]
fn queue_needs_its_own_port_and_a_pool() {
    let mut ledger = Ledger::new();
    let port = ledger.open_port(port0()).unwrap();
    let pool = ledger.create_pool().unwrap();
    let other = Port { port_id: 9, socket: SocketId::new(0) };
    let rxq = RxQ { queue_id: 0, port: port0() };
    assert_eq!(ledger.bind_rx_queue(port, pool, RxQ { queue_id: 0, port: other }), None);
    assert_eq!(ledger.bind_rx_queue(pool, pool, rxq), None);
    assert_eq!(ledger.bind_rx_queue(port, port, rxq), None);
    assert_eq!(ledger.bind_rx_queue(port, 0, rxq), None);
    assert_eq!(ledger.bind_rx_queue(port, 40, rxq), None);
    assert_eq!(ledger.bind_tx_queue(pool, TxQ { queue_id: 0, port: port0() }), None);
    assert_eq!(ledger.bind_tx_queue(port, TxQ { queue_id: 0, port: other }), None);
    assert_eq!(ledger.len(), 3);
    ledger.release(pool);
    assert_eq!(ledger.bind_rx_queue(port, pool, rxq), None);
    assert_eq!(ledger.bind_tx_queue(port, TxQ { queue_id: 0, port: port0() }), Some(3));
}

#[test]
fn teardown_status() {
    let rxq = ResourceKind::RxQueue(RxQ { queue_id: 0, port: port0() });
    let txq = ResourceKind::TxQueue(TxQ { queue_id: 0, port: port0() });
    assert_eq!(teardown_outcome(rxq, 0), TeardownOutcome::Done);
    assert_eq!(teardown_outcome(rxq, -95), TeardownOutcome::Warn);
    assert_eq!(teardown_outcome(txq, -22), TeardownOutcome::Warn);
    assert_eq!(teardown_outcome(txq, 1), TeardownOutcome::Warn);
    assert_eq!(teardown_outcome(ResourceKind::Pool, -1), TeardownOutcome::Done);
    assert_eq!(teardown_outcome(ResourceKind::Port(port0()), -1), TeardownOutcome::Done);
    assert_eq!(teardown_outcome(ResourceKind::Runtime, 0), TeardownOutcome::Done);
    assert_eq!(teardown_outcome(ResourceKind::Runtime, -95), TeardownOutcome::Warn);
    assert_eq!(teardown_outcome(ResourceKind::Runtime, 95), TeardownOutcome::Fatal);
    assert_eq!(teardown_outcome(ResourceKind::Runtime, -1), TeardownOutcome::Fatal);
}

#[test]
fn cleanup_status() {
    assert_eq!(cleanup_outcome(0), CleanupOutcome::Done);
    assert_eq!(cleanup_outcome(-95), CleanupOutcome::NotSupported);
    assert_eq!(cleanup_outcome(95), CleanupOutcome::Fatal);
    assert_eq!(cleanup_outcome(-1), CleanupOutcome::Fatal);
    assert_eq!(cleanup_outcome(i32::MIN), CleanupOutcome::Fatal);
}
