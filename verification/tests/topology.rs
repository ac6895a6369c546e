use dpdk::assign::{extract_rxtx_lcores, place_of};
use dpdk::ids::{Affinity, LCoreId, SocketId};
use dpdk::port::{DescLim, DevInfo, Port};
use dpdk::scan::{enumerate_cores, enumerate_ports, PortSlot};
use dpdk::topology::{
    cores_on_socket, distinct_sockets, holds_socket, is_rising, CoreInfo, SocketMap,
};

fn lcore(id: u32, socket: u32) -> CoreInfo {
    CoreInfo { id: LCoreId::new(id), socket: SocketId::new(socket) }
}

fn ids(v: &[u32]) -> Vec<LCoreId> {
    v.iter().map(|x| LCoreId::new(*x)).collect()
}

fn dev() -> DevInfo {
    let lim = DescLim { nb_max: 4096, nb_min: 64, nb_align: 32 };
    DevInfo {
        max_rx_queues: 16,
        max_tx_queues: 16,
        rx_desc_lim: lim,
        tx_desc_lim: lim,
        rx_offload_capa: 0,
        tx_offload_capa: 0,
    }
}

#[test]
fn cores_are_grouped_by_socket() {
    let cores = vec![lcore(0, 1), lcore(1, 0), lcore(2, 1), lcore(3, 0), lcore(4, 7)];
    assert_eq!(cores_on_socket(&cores, SocketId::new(1)), ids(&[0, 2]));
    assert_eq!(cores_on_socket(&cores, SocketId::new(0)), ids(&[1, 3]));
    assert_eq!(cores_on_socket(&cores, SocketId::new(5)), ids(&[]));
    assert_eq!(
        distinct_sockets(&cores),
        vec![SocketId::new(1), SocketId::new(0), SocketId::new(7)]
    );
    assert!(holds_socket(&distinct_sockets(&cores), SocketId::new(7)));
    assert!(!holds_socket(&distinct_sockets(&cores), SocketId::new(2)));
    let map = SocketMap::build(&cores);
    assert_eq!(map.len(), 3);
    assert_eq!(map.get(SocketId::new(0)), Some(&ids(&[1, 3])));
    assert_eq!(map.get(SocketId::new(7)), Some(&ids(&[4])));
    assert_eq!(map.get(SocketId::new(2)), None);
    assert_eq!(map.all_cores(), ids(&[0, 1, 2, 3, 4]));
}

#[test]
fn empty_map() {
    let cores: Vec<CoreInfo> = Vec::new();
    let map = SocketMap::build(&cores);
    assert_eq!(map.len(), 0);
    assert_eq!(map.get(SocketId::new(0)), None);
    assert!(map.all_cores().is_empty());
}

#[test]
fn eligible_cores_follow_the_policy() {
    let cores = vec![lcore(0, 1), lcore(1, 0), lcore(2, 1)];
    let map = SocketMap::build(&cores);
    let port = Port { port_id: 0, socket: SocketId::new(1) };
    let (rx, tx) = extract_rxtx_lcores(&port, &map, Affinity::Full, Affinity::Numa);
    assert_eq!(rx, ids(&[0, 1, 2]));
    assert_eq!(tx, ids(&[0, 2]));
    let (rx, tx) = extract_rxtx_lcores(&port, &map, Affinity::Numa, Affinity::Full);
    assert_eq!(rx, ids(&[0, 2]));
    assert_eq!(tx, ids(&[0, 1, 2]));
}

#[test]
fn place_is_the_first_occurrence() {
    let list = ids(&[5, 3, 9, 3]);
    assert_eq!(place_of(&list, LCoreId::new(5)), 0);
    assert_eq!(place_of(&list, LCoreId::new(3)), 1);
    assert_eq!(place_of(&list, LCoreId::new(9)), 2);
    assert_eq!(place_of(&list, LCoreId::new(4)), 4);
    assert_eq!(place_of(&ids(&[]), LCoreId::new(4)), 0);
}

#[test]
fn enumeration_keeps_enabled_slots() {
    let slots = vec![Some(SocketId::new(0)), None, Some(SocketId::new(1)), None, None];
    assert_eq!(enumerate_cores(&slots), vec![lcore(0, 0), lcore(2, 1)]);
    let none: Vec<Option<SocketId>> = vec![None, None];
    assert!(enumerate_cores(&none).is_empty());
    let slot = PortSlot { socket: SocketId::new(1), dev: dev() };
    let ports = enumerate_ports(&vec![None, Some(slot), None, Some(slot)]);
    assert_eq!(ports.len(), 2);
    assert_eq!(ports[0].port, Port { port_id: 1, socket: SocketId::new(1) });
    assert_eq!(ports[1].port, Port { port_id: 3, socket: SocketId::new(1) });
    assert_eq!(ports[1].dev, dev());
    assert!(enumerate_ports(&Vec::new()).is_empty());
}

#[test]
fn rising_identifiers_are_recognised() {
    assert!(is_rising(&Vec::new()));
    assert!(is_rising(&vec![lcore(3, 0)]));
    assert!(is_rising(&vec![lcore(0, 1), lcore(1, 0), lcore(7, 1)]));
    assert!(!is_rising(&vec![lcore(0, 1), lcore(2, 0), lcore(1, 1)]));
    assert!(!is_rising(&vec![lcore(1, 0), lcore(1, 1)]));
    assert!(!is_rising(&vec![lcore(4, 0), lcore(0, 0), lcore(5, 0)]));
    let slots = vec![Some(SocketId::new(1)), None, Some(SocketId::new(0)), Some(SocketId::new(1))];
    assert!(is_rising(&enumerate_cores(&slots)));
}
