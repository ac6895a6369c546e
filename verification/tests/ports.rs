use dpdk::ids::SocketId;
use dpdk::port::{
    check_limits, configure_port, DescLim, DevInfo, LimitFault, Port, PortConf, RxMqMode,
    TxMqMode,
};

fn lim() -> DescLim {
    DescLim { nb_max: 4096, nb_min: 64, nb_align: 32 }
}

fn dev() -> DevInfo {
    DevInfo {
        max_rx_queues: 16,
        max_tx_queues: 8,
        rx_desc_lim: lim(),
        tx_desc_lim: lim(),
        rx_offload_capa: 0,
        tx_offload_capa: 0,
    }
}

#[test]
fn port_reports_its_socket() {
    let p = Port { port_id: 5, socket: SocketId::new(1) };
    assert_eq!(p.socket_id(), SocketId::new(1));
    assert_eq!(SocketId::from_raw(1), Some(SocketId::new(1)));
    assert_eq!(SocketId::from_raw(0), Some(SocketId::new(0)));
    assert_eq!(SocketId::from_raw(-1), None);
    assert_eq!(SocketId::from_raw(i32::MAX), Some(SocketId::new(0x7fff_ffff)));
}

#[test]
fn limits_within() {
    assert_eq!(check_limits(&dev(), 0, 0), None);
    assert_eq!(check_limits(&dev(), 16, 8), None);
    assert_eq!(check_limits(&dev(), 1, 1), None);
}

#[test]
fn limits_broken_in_order() {
    assert_eq!(check_limits(&dev(), 65536, 65536), Some(LimitFault::RxQueueCount));
    assert_eq!(check_limits(&dev(), 17, 65536), Some(LimitFault::TxQueueCount));
    assert_eq!(check_limits(&dev(), 17, 9), Some(LimitFault::RxQueueLimit));
    assert_eq!(check_limits(&dev(), 16, 9), Some(LimitFault::TxQueueLimit));
    let mut d = dev();
    d.rx_desc_lim.nb_max = 127;
    d.tx_desc_lim.nb_max = 127;
    assert_eq!(check_limits(&d, 1, 1), Some(LimitFault::RxDescMax));
    d.rx_desc_lim.nb_max = 128;
    assert_eq!(check_limits(&d, 1, 1), Some(LimitFault::TxDescMax));
    let mut d = dev();
    d.rx_desc_lim.nb_min = 129;
    assert_eq!(check_limits(&d, 1, 1), Some(LimitFault::RxDescMin));
    let mut d = dev();
    d.tx_desc_lim.nb_min = 129;
    assert_eq!(check_limits(&d, 1, 1), Some(LimitFault::TxDescMin));
    let mut d = dev();
    d.rx_desc_lim.nb_align = 0;
    assert_eq!(check_limits(&d, 1, 1), Some(LimitFault::RxDescAlign));
    d.rx_desc_lim.nb_align = 48;
    assert_eq!(check_limits(&d, 1, 1), Some(LimitFault::RxDescAlign));
    let mut d = dev();
    d.tx_desc_lim.nb_align = 0;
    assert_eq!(check_limits(&d, 1, 1), Some(LimitFault::TxDescAlign));
    d.tx_desc_lim.nb_align = 3;
    assert_eq!(check_limits(&d, 1, 1), Some(LimitFault::TxDescAlign));
    d.tx_desc_lim.nb_align = 128;
    assert_eq!(check_limits(&d, 1, 1), None);
}

#[test]
fn ring_limits() {
    assert!(lim().check(128));
    assert!(lim().check(64));
    assert!(lim().check(4096));
    assert!(!lim().check(32));
    assert!(!lim().check(100));
    assert!(!DescLim { nb_max: 4096, nb_min: 0, nb_align: 0 }.check(128));
}

#[test]
fn one_queue_is_not_spread() {
    let conf = configure_port(&dev(), 1, 1);
    assert_eq!(
        conf,
        PortConf {
            max_rx_pkt_len: 1518,
            rx_mq_mode: RxMqMode::Single,
            tx_mq_mode: TxMqMode::Single,
            rss_hf: 0,
            rx_offloads: 0,
            tx_offloads: 0,
        }
    );
    assert_eq!(configure_port(&dev(), 0, 0), conf);
}

#[test]
fn several_queues_are_spread_by_hash() {
    let conf = configure_port(&dev(), 2, 1);
    assert_eq!(conf.rx_mq_mode, RxMqMode::Rss);
    assert_eq!(conf.tx_mq_mode, TxMqMode::Single);
    assert_eq!(conf.rss_hf, 0x30);
    assert_eq!(conf.max_rx_pkt_len, 1518);
}

#[test]
fn offloads_follow_what_is_advertised() {
    let mut d = dev();
    d.rx_offload_capa = 0x2;
    d.tx_offload_capa = 0x8 | 0x2 | 0x1000;
    let conf = configure_port(&d, 1, 1);
    // Any receive checksum capability switches all three on.
    assert_eq!(conf.rx_offloads, 0xe);
    assert_eq!(conf.tx_offloads, 0xa);
    d.rx_offload_capa = 0x1;
    d.tx_offload_capa = 0x4;
    let conf = configure_port(&d, 1, 1);
    assert_eq!(conf.rx_offloads, 0);
    assert_eq!(conf.tx_offloads, 0x4);
    d.tx_offload_capa = u64::MAX;
    d.rx_offload_capa = u64::MAX;
    let conf = configure_port(&d, 4, 4);
    assert_eq!(conf.rx_offloads, 0xe);
    assert_eq!(conf.tx_offloads, 0xe);
}
