use dpdk::assign::{check_setup, FaultKind, SetupFault};
use dpdk::eal::Eal;
use dpdk::ids::{Affinity, ErrorCode, LCoreId, SocketId, EALREADY};
use dpdk::port::{DescLim, DevInfo, LimitFault, Port, PortInfo};
use dpdk::queue::{RxQ, TxQ};
use dpdk::topology::{is_rising, CoreInfo};

fn lim() -> DescLim {
    DescLim { nb_max: 4096, nb_min: 64, nb_align: 32 }
}

fn dev(max_queues: u16) -> DevInfo {
    DevInfo {
        max_rx_queues: max_queues,
        max_tx_queues: max_queues,
        rx_desc_lim: lim(),
        tx_desc_lim: lim(),
        rx_offload_capa: 0,
        tx_offload_capa: 0,
    }
}

fn lcore(id: u32, socket: u32) -> CoreInfo {
    CoreInfo { id: LCoreId::new(id), socket: SocketId::new(socket) }
}

fn nic(port_id: u16, socket: u32, max_queues: u16) -> PortInfo {
    PortInfo { port: Port { port_id, socket: SocketId::new(socket) }, dev: dev(max_queues) }
}

fn fresh() -> Eal {
    let mut args = vec!["prog".to_string()];
    Eal::new(&mut args, 1).unwrap()
}

#[test]
fn one_port_one_local_core() {
    let cores = vec![lcore(0, 0)];
    let ports = vec![nic(0, 0, 4)];
    assert_eq!(check_setup(&cores, &ports, Affinity::Numa, Affinity::Numa), None);
    let mut eal = fresh();
    let r = eal.setup(&cores, &ports, Affinity::Numa, Affinity::Numa).unwrap();
    assert_eq!(r.len(), 1);
    assert_eq!(r[0].0, LCoreId::new(0));
    assert_eq!(r[0].1, vec![RxQ { queue_id: 0, port: ports[0].port }]);
    assert_eq!(r[0].2, vec![TxQ { queue_id: 0, port: ports[0].port }]);
    assert!(eal.is_initialized());
}

#[test]
fn no_ports_succeeds_with_empty_result() {
    let cores = vec![lcore(0, 0), lcore(1, 0)];
    let ports: Vec<PortInfo> = Vec::new();
    assert_eq!(check_setup(&cores, &ports, Affinity::Full, Affinity::Full), None);
    let mut eal = fresh();
    let r = eal.setup(&cores, &ports, Affinity::Full, Affinity::Full).unwrap();
    assert!(r.is_empty());
    assert!(eal.is_initialized());
}

#[test]
fn second_setup_is_refused() {
    let cores = vec![lcore(0, 0)];
    let ports = vec![nic(0, 0, 4)];
    let mut eal = fresh();
    assert!(!eal.is_initialized());
    let first = eal.setup(&cores, &ports, Affinity::Full, Affinity::Full).unwrap();
    let kept = first.clone();
    let second = eal.setup(&cores, &ports, Affinity::Full, Affinity::Full);
    assert_eq!(second, Err(ErrorCode(EALREADY)));
    assert_eq!(ErrorCode(EALREADY), ErrorCode::from(114u8));
    assert!(eal.is_initialized());
    assert_eq!(first, kept);
    // Refused whatever is asked, even what could not be set up.
    let none: Vec<CoreInfo> = Vec::new();
    assert_eq!(eal.setup(&none, &ports, Affinity::Numa, Affinity::Numa), Err(ErrorCode(114)));
}

#[test]
fn too_many_queues_is_a_fault() {
    let cores = vec![lcore(0, 0), lcore(1, 0), lcore(2, 0)];
    let ports = vec![nic(0, 0, 8), nic(1, 0, 2)];
    assert_eq!(
        check_setup(&cores, &ports, Affinity::Full, Affinity::Full),
        Some(SetupFault { port_id: 1, kind: FaultKind::Limit(LimitFault::RxQueueLimit) })
    );
}

#[test]
fn local_port_without_core_is_a_fault() {
    let cores = vec![lcore(0, 0)];
    let ports = vec![nic(0, 0, 8), nic(3, 1, 8)];
    assert_eq!(
        check_setup(&cores, &ports, Affinity::Numa, Affinity::Full),
        Some(SetupFault { port_id: 3, kind: FaultKind::NoRxCore })
    );
    assert_eq!(
        check_setup(&cores, &ports, Affinity::Full, Affinity::Numa),
        Some(SetupFault { port_id: 3, kind: FaultKind::NoTxCore })
    );
    assert_eq!(check_setup(&cores, &ports, Affinity::Full, Affinity::Full), None);
}

#[test]
fn full_placement_reaches_every_core() {
    // Queue indices go by rising core identifier, whatever the sockets.
    let cores = vec![lcore(0, 1), lcore(1, 0), lcore(2, 1), lcore(6, 0)];
    let ports = vec![nic(0, 0, 8), nic(1, 1, 8)];
    let mut eal = fresh();
    let r = eal.setup(&cores, &ports, Affinity::Full, Affinity::Numa).unwrap();
    assert_eq!(r.len(), 4);
    let near = ports[0].port;
    let far = ports[1].port;
    assert_eq!(
        r[0],
        (
            LCoreId::new(0),
            vec![RxQ { queue_id: 0, port: near }, RxQ { queue_id: 0, port: far }],
            vec![TxQ { queue_id: 0, port: far }],
        )
    );
    assert_eq!(
        r[1],
        (
            LCoreId::new(1),
            vec![RxQ { queue_id: 1, port: near }, RxQ { queue_id: 1, port: far }],
            vec![TxQ { queue_id: 0, port: near }],
        )
    );
    assert_eq!(
        r[2],
        (
            LCoreId::new(2),
            vec![RxQ { queue_id: 2, port: near }, RxQ { queue_id: 2, port: far }],
            vec![TxQ { queue_id: 1, port: far }],
        )
    );
    assert_eq!(
        r[3],
        (
            LCoreId::new(6),
            vec![RxQ { queue_id: 3, port: near }, RxQ { queue_id: 3, port: far }],
            vec![TxQ { queue_id: 1, port: near }],
        )
    );
}

#[test]
fn queue_index_is_the_rank_of_the_core() {
    // Cores 0, 1, 2 on sockets 1, 0, 1 and one port: index 1 is core 1's.
    let cores = vec![lcore(0, 1), lcore(1, 0), lcore(2, 1)];
    let ports = vec![nic(0, 1, 8)];
    assert!(is_rising(&cores));
    let mut eal = fresh();
    let r = eal.setup(&cores, &ports, Affinity::Full, Affinity::Full).unwrap();
    let ids: Vec<(LCoreId, u16, u16)> =
        r.iter().map(|e| (e.0, e.1[0].queue_id, e.2[0].queue_id)).collect();
    assert_eq!(
        ids,
        vec![(LCoreId::new(0), 0, 0), (LCoreId::new(1), 1, 1), (LCoreId::new(2), 2, 2)]
    );
    let mut eal = fresh();
    let r = eal.setup(&cores, &ports, Affinity::Numa, Affinity::Full).unwrap();
    let ids: Vec<(LCoreId, Vec<u16>, u16)> = r
        .iter()
        .map(|e| (e.0, e.1.iter().map(|q| q.queue_id).collect(), e.2[0].queue_id))
        .collect();
    assert_eq!(
        ids,
        vec![
            (LCoreId::new(0), vec![0], 0),
            (LCoreId::new(1), vec![], 1),
            (LCoreId::new(2), vec![1], 2),
        ]
    );
}

#[test]
fn core_without_queue_is_left_out() {
    let cores = vec![lcore(0, 0), lcore(1, 1), lcore(2, 0)];
    let ports = vec![nic(0, 0, 8)];
    let mut eal = fresh();
    let r = eal.setup(&cores, &ports, Affinity::Numa, Affinity::Numa).unwrap();
    assert_eq!(r.len(), 2);
    assert_eq!(r[0].0, LCoreId::new(0));
    assert_eq!(r[1].0, LCoreId::new(2));
    assert_eq!(r[1].1, vec![RxQ { queue_id: 1, port: ports[0].port }]);
}

fn machine() -> (Vec<CoreInfo>, Vec<PortInfo>) {
    let cores = vec![lcore(0, 0), lcore(1, 1), lcore(2, 0), lcore(3, 1), lcore(5, 0)];
    let ports = vec![nic(0, 0, 8), nic(1, 1, 8), nic(2, 0, 8)];
    (cores, ports)
}

#[test]
fn queue_indices_of_a_port_have_no_gap_and_no_double() {
    let (cores, ports) = machine();
    for (rx, tx, rx_counts, tx_counts) in [
        (Affinity::Full, Affinity::Numa, [5u16, 5, 5], [3u16, 2, 3]),
        (Affinity::Numa, Affinity::Full, [3, 2, 3], [5, 5, 5]),
    ] {
        let mut eal = fresh();
        let r = eal.setup(&cores, &ports, rx, tx).unwrap();
        for (k, p) in ports.iter().enumerate() {
            let mut rx_ids: Vec<u16> = r
                .iter()
                .flat_map(|e| e.1.iter())
                .filter(|q| q.port == p.port)
                .map(|q| q.queue_id)
                .collect();
            rx_ids.sort();
            assert_eq!(rx_ids, (0..rx_counts[k]).collect::<Vec<u16>>());
            let mut tx_ids: Vec<u16> = r
                .iter()
                .flat_map(|e| e.2.iter())
                .filter(|q| q.port == p.port)
                .map(|q| q.queue_id)
                .collect();
            tx_ids.sort();
            assert_eq!(tx_ids, (0..tx_counts[k]).collect::<Vec<u16>>());
        }
    }
}

#[test]
fn no_two_receive_queues_share_a_pool() {
    let (cores, ports) = machine();
    let mut eal = fresh();
    let r = eal.setup(&cores, &ports, Affinity::Full, Affinity::Full).unwrap();
    let mut names: Vec<String> =
        r.iter().flat_map(|e| e.1.iter()).map(|q| q.pool_name()).collect();
    assert_eq!(names.len(), 15);
    names.sort();
    names.dedup();
    assert_eq!(names.len(), 15);
    assert!(names.contains(&"rxq_be0dd4ab_2_4".to_string()));
}

#[test]
fn local_placement_keeps_to_the_socket() {
    let (cores, ports) = machine();
    let mut eal = fresh();
    let r = eal.setup(&cores, &ports, Affinity::Numa, Affinity::Numa).unwrap();
    assert_eq!(r.len(), 5);
    for (id, rxqs, txqs) in &r {
        let socket = cores.iter().find(|c| c.id == *id).unwrap().socket;
        assert!(!rxqs.is_empty());
        assert!(rxqs.iter().all(|q| q.port.socket == socket));
        assert!(txqs.iter().all(|q| q.port.socket == socket));
    }
    // Core 5 is the third core of socket 0, on both of its ports.
    assert_eq!(
        r[4].1,
        vec![RxQ { queue_id: 2, port: ports[0].port }, RxQ { queue_id: 2, port: ports[2].port }]
    );
}

#[test]
fn setup_of_nothing_marks_the_handle() {
    let mut eal = fresh();
    assert_eq!(eal.check_reentry(), None);
    let r = eal.setup(&Vec::new(), &Vec::new(), Affinity::Numa, Affinity::Numa);
    assert_eq!(r, Ok(Vec::new()));
    assert_eq!(eal.check_reentry(), Some(ErrorCode(114)));
}
