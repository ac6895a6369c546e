use dpdk::ids::{Affinity, LCoreId, SocketId};
use dpdk::port::{DescLim, DevInfo, Port, PortConf, PortInfo, RxMqMode, TxMqMode};
use dpdk::queue::{RxQ, TxQ};
use dpdk::script::{configure_rxq, configure_txq, hardware_script, start_port, HwAction};
use dpdk::topology::CoreInfo;

fn lcore(id: u32, socket: u32) -> CoreInfo {
    CoreInfo { id: LCoreId::new(id), socket: SocketId::new(socket) }
}

fn nic(port_id: u16, socket: u32, tx_capa: u64) -> PortInfo {
    let lim = DescLim { nb_max: 4096, nb_min: 64, nb_align: 32 };
    PortInfo {
        port: Port { port_id, socket: SocketId::new(socket) },
        dev: DevInfo {
            max_rx_queues: 16,
            max_tx_queues: 16,
            rx_desc_lim: lim,
            tx_desc_lim: lim,
            rx_offload_capa: 0,
            tx_offload_capa: tx_capa,
        },
    }
}

#[test]
fn script_of_no_port_is_empty() {
    let cores = vec![lcore(0, 0)];
    assert!(hardware_script(&cores, &Vec::new(), Affinity::Full, Affinity::Full).is_empty());
}

#[test]
fn script_runs_port_by_port() {
    let cores = vec![lcore(0, 0), lcore(1, 1), lcore(2, 0)];
    let ports = vec![nic(0, 0, 0x2), nic(4, 1, 0)];
    let first = ports[0].port;
    let second = ports[1].port;
    let script = hardware_script(&cores, &ports, Affinity::Numa, Affinity::Full);
    let expected = vec![
        HwAction::ConfigurePort {
            port: first,
            nb_rx_queue: 2,
            nb_tx_queue: 3,
            conf: PortConf {
                max_rx_pkt_len: 1518,
                rx_mq_mode: RxMqMode::Rss,
                tx_mq_mode: TxMqMode::Single,
                rss_hf: 0x30,
                rx_offloads: 0,
                tx_offloads: 0x2,
            },
        },
        HwAction::SetupRxQueue { rxq: RxQ { queue_id: 0, port: first }, nb_desc: 128 },
        HwAction::SetupRxQueue { rxq: RxQ { queue_id: 1, port: first }, nb_desc: 128 },
        HwAction::SetupTxQueue { txq: TxQ { queue_id: 0, port: first }, nb_desc: 128 },
        HwAction::SetupTxQueue { txq: TxQ { queue_id: 1, port: first }, nb_desc: 128 },
        HwAction::SetupTxQueue { txq: TxQ { queue_id: 2, port: first }, nb_desc: 128 },
        HwAction::StartPort { port: first, promiscuous: true },
        HwAction::ConfigurePort {
            port: second,
            nb_rx_queue: 1,
            nb_tx_queue: 3,
            conf: PortConf {
                max_rx_pkt_len: 1518,
                rx_mq_mode: RxMqMode::Single,
                tx_mq_mode: TxMqMode::Single,
                rss_hf: 0,
                rx_offloads: 0,
                tx_offloads: 0,
            },
        },
        HwAction::SetupRxQueue { rxq: RxQ { queue_id: 0, port: second }, nb_desc: 128 },
        HwAction::SetupTxQueue { txq: TxQ { queue_id: 0, port: second }, nb_desc: 128 },
        HwAction::SetupTxQueue { txq: TxQ { queue_id: 1, port: second }, nb_desc: 128 },
        HwAction::SetupTxQueue { txq: TxQ { queue_id: 2, port: second }, nb_desc: 128 },
        HwAction::StartPort { port: second, promiscuous: true },
    ];
    assert_eq!(script, expected);
}

#[test]
fn port_without_cores_is_still_configured_and_started() {
    let cores: Vec<CoreInfo> = Vec::new();
    let ports = vec![nic(1, 0, 0)];
    let script = hardware_script(&cores, &ports, Affinity::Full, Affinity::Full);
    assert_eq!(script.len(), 2);
    assert!(matches!(
        script[0],
        HwAction::ConfigurePort { nb_rx_queue: 0, nb_tx_queue: 0, .. }
    ));
    assert_eq!(script[1], HwAction::StartPort { port: ports[0].port, promiscuous: true });
}

#[test]
fn single_operations() {
    let p = Port { port_id: 3, socket: SocketId::new(1) };
    assert_eq!(
        configure_rxq(&p, 5),
        HwAction::SetupRxQueue { rxq: RxQ { queue_id: 5, port: p }, nb_desc: 128 }
    );
    assert_eq!(
        configure_txq(&p, 65535),
        HwAction::SetupTxQueue { txq: TxQ { queue_id: 65535, port: p }, nb_desc: 128 }
    );
    assert_eq!(start_port(&p), HwAction::StartPort { port: p, promiscuous: true });
}
