//! Ports, their advertised limits, and the configuration chosen for them.

use vstd::prelude::*;
use crate::ids::SocketId;

verus! {

/// Descriptors given to every transmit ring.
pub const DEFAULT_TX_DESC: u16 = 128;

/// Descriptors given to every receive ring.
pub const DEFAULT_RX_DESC: u16 = 128;

/// Whether a started port accepts frames addressed to others.
pub const DEFAULT_PROMISC: bool = true;

/// Longest frame a port is asked to receive (`RTE_ETHER_MAX_LEN`).
pub const ETHER_MAX_LEN: u32 = 1518;

/// Hash over IPv4 TCP headers (`ETH_RSS_NONFRAG_IPV4_TCP`).
pub const RSS_NONFRAG_IPV4_TCP: u64 = 0x10;

/// Hash over IPv4 UDP headers (`ETH_RSS_NONFRAG_IPV4_UDP`).
pub const RSS_NONFRAG_IPV4_UDP: u64 = 0x20;

/// Receive checksum offloads: IPv4, UDP and TCP (`DEV_RX_OFFLOAD_CHECKSUM`).
pub const RX_OFFLOAD_CHECKSUM: u64 = 0xe;

/// Transmit IPv4 checksum offload (`DEV_TX_OFFLOAD_IPV4_CKSUM`).
pub const TX_OFFLOAD_IPV4_CKSUM: u64 = 0x2;

/// Transmit UDP checksum offload (`DEV_TX_OFFLOAD_UDP_CKSUM`).
pub const TX_OFFLOAD_UDP_CKSUM: u64 = 0x4;

/// Transmit TCP checksum offload (`DEV_TX_OFFLOAD_TCP_CKSUM`).
pub const TX_OFFLOAD_TCP_CKSUM: u64 = 0x8;

/// One NIC port: its index and the socket its hardware is attached to.
#[derive(Debug, Clone, Copy, PartialEq, Eq, Structural)]
pub struct Port {
    /// Index of the port.
    pub port_id: u16,
    /// Socket the port's hardware is attached to.
    pub socket: SocketId,
}

impl Port {
    /// The socket the port's hardware is attached to.
    #[inline]
    pub fn socket_id(&self) -> (s: SocketId)
        ensures
            s == self.socket,
    {
        self.socket
    }
}

/// Limits a port puts on the size of a descriptor ring.
#[derive(Debug, Clone, Copy, PartialEq, Eq, Structural)]
pub struct DescLim {
    /// Most descriptors a ring may have.
    pub nb_max: u16,
    /// Fewest descriptors a ring may have.
    pub nb_min: u16,
    /// The ring size must be a multiple of this.
    pub nb_align: u16,
}

impl DescLim {
    /// Whether a ring of `nb_desc` descriptors keeps within the limits.
    pub open spec fn admits(&self, nb_desc: u16) -> bool {
        &&& nb_desc <= self.nb_max
        &&& nb_desc >= self.nb_min
        &&& self.nb_align != 0
        &&& nb_desc % self.nb_align == 0
    }

    /// Whether a ring of `nb_desc` descriptors keeps within the limits.
    pub fn check(&self, nb_desc: u16) -> (r: bool)
        ensures
            r == self.admits(nb_desc),
    {
        nb_desc <= self.nb_max && nb_desc >= self.nb_min && self.nb_align != 0 && nb_desc
            % self.nb_align == 0
    }
}

/// What a port advertises about itself.
#[derive(Debug, Clone, Copy, PartialEq, Eq, Structural)]
pub struct DevInfo {
    /// Most receive queues the port can have.
    pub max_rx_queues: u16,
    /// Most transmit queues the port can have.
    pub max_tx_queues: u16,
    /// Limits on receive rings.
    pub rx_desc_lim: DescLim,
    /// Limits on transmit rings.
    pub tx_desc_lim: DescLim,
    /// Receive offloads the port can do, as a bit mask.
    pub rx_offload_capa: u64,
    /// Transmit offloads the port can do, as a bit mask.
    pub tx_offload_capa: u64,
}

/// A valid port as enumeration found it.
#[derive(Debug, Clone, Copy, PartialEq, Eq, Structural)]
pub struct PortInfo {
    /// The port.
    pub port: Port,
    /// What it advertises.
    pub dev: DevInfo,
}

/// How received packets are spread over the receive queues.
#[derive(Debug, Clone, Copy, PartialEq, Eq, Structural)]
pub enum RxMqMode {
    /// No spreading: one queue takes all.
    Single,
    /// Spread by a hash over packet headers.
    Rss,
}

/// How packets to send are spread over the transmit queues.
#[derive(Debug, Clone, Copy, PartialEq, Eq, Structural)]
pub enum TxMqMode {
    /// No spreading.
    Single,
}

/// The configuration applied to a port.
#[derive(Debug, Clone, Copy, PartialEq, Eq, Structural)]
pub struct PortConf {
    /// Longest frame to receive.
    pub max_rx_pkt_len: u32,
    /// Receive multi-queue mode.
    pub rx_mq_mode: RxMqMode,
    /// Transmit multi-queue mode.
    pub tx_mq_mode: TxMqMode,
    /// Header fields hashed to pick a receive queue, as a bit mask.
    pub rss_hf: u64,
    /// Receive offloads switched on, as a bit mask.
    pub rx_offloads: u64,
    /// Transmit offloads switched on, as a bit mask.
    pub tx_offloads: u64,
}

/// No two entries of `ports` name the same port.
pub open spec fn distinct_ports(ports: Seq<PortInfo>) -> bool {
    forall|i: int, j: int|
        0 <= i < j < ports.len() ==> (#[trigger] ports[i]).port.port_id != (
        #[trigger] ports[j]).port.port_id
}

/// The reason a port cannot be given the queues asked of it.
#[derive(Debug, Clone, Copy, PartialEq, Eq, Structural)]
pub enum LimitFault {
    /// More receive queues than a queue index can number.
    RxQueueCount,
    /// More transmit queues than a queue index can number.
    TxQueueCount,
    /// More receive queues than the port has.
    RxQueueLimit,
    /// More transmit queues than the port has.
    TxQueueLimit,
    /// The receive ring is larger than the port allows.
    RxDescMax,
    /// The receive ring is smaller than the port allows.
    RxDescMin,
    /// The receive ring size is no multiple of the port's alignment.
    RxDescAlign,
    /// The transmit ring is larger than the port allows.
    TxDescMax,
    /// The transmit ring is smaller than the port allows.
    TxDescMin,
    /// The transmit ring size is no multiple of the port's alignment.
    TxDescAlign,
}

/// The first limit that `num_rxq` receive and `num_txq` transmit queues with
/// the default ring sizes break on a port advertising `dev`, if any.
pub open spec fn limit_fault(dev: DevInfo, num_rxq: int, num_txq: int) -> Option<LimitFault> {
    if num_rxq > u16::MAX {
        Some(LimitFault::RxQueueCount)
    } else if num_txq > u16::MAX {
        Some(LimitFault::TxQueueCount)
    } else if num_rxq > dev.max_rx_queues {
        Some(LimitFault::RxQueueLimit)
    } else if num_txq > dev.max_tx_queues {
        Some(LimitFault::TxQueueLimit)
    } else if DEFAULT_RX_DESC > dev.rx_desc_lim.nb_max {
        Some(LimitFault::RxDescMax)
    } else if DEFAULT_RX_DESC < dev.rx_desc_lim.nb_min {
        Some(LimitFault::RxDescMin)
    } else if dev.rx_desc_lim.nb_align == 0 || DEFAULT_RX_DESC % dev.rx_desc_lim.nb_align != 0 {
        Some(LimitFault::RxDescAlign)
    } else if DEFAULT_TX_DESC > dev.tx_desc_lim.nb_max {
        Some(LimitFault::TxDescMax)
    } else if DEFAULT_TX_DESC < dev.tx_desc_lim.nb_min {
        Some(LimitFault::TxDescMin)
    } else if dev.tx_desc_lim.nb_align == 0 || DEFAULT_TX_DESC % dev.tx_desc_lim.nb_align != 0 {
        Some(LimitFault::TxDescAlign)
    } else {
        None
    }
}

/// Whether a port advertising `dev` can take `num_rxq` receive and `num_txq`
/// transmit queues with the default ring sizes.
pub open spec fn within_limits(dev: DevInfo, num_rxq: int, num_txq: int) -> bool {
    &&& 0 <= num_rxq <= dev.max_rx_queues
    &&& 0 <= num_txq <= dev.max_tx_queues
    &&& dev.rx_desc_lim.admits(DEFAULT_RX_DESC)
    &&& dev.tx_desc_lim.admits(DEFAULT_TX_DESC)
}

/// A port keeps within its limits exactly when no limit is named as broken.
pub proof fn lemma_limit_fault(dev: DevInfo, num_rxq: int, num_txq: int)
    requires
        0 <= num_rxq,
        0 <= num_txq,
    ensures
        limit_fault(dev, num_rxq, num_txq).is_none() <==> within_limits(dev, num_rxq, num_txq),
{
}

/// The first limit that the asked queues break on the port, if any.
pub fn check_limits(dev: &DevInfo, num_rxq: usize, num_txq: usize) -> (r: Option<LimitFault>)
    ensures
        r == limit_fault(*dev, num_rxq as int, num_txq as int),
        r.is_none() <==> within_limits(*dev, num_rxq as int, num_txq as int),
{
    if num_rxq > 0xffff {
        Some(LimitFault::RxQueueCount)
    } else if num_txq > 0xffff {
        Some(LimitFault::TxQueueCount)
    } else if num_rxq > dev.max_rx_queues as usize {
        Some(LimitFault::RxQueueLimit)
    } else if num_txq > dev.max_tx_queues as usize {
        Some(LimitFault::TxQueueLimit)
    } else if DEFAULT_RX_DESC > dev.rx_desc_lim.nb_max {
        Some(LimitFault::RxDescMax)
    } else if DEFAULT_RX_DESC < dev.rx_desc_lim.nb_min {
        Some(LimitFault::RxDescMin)
    } else if dev.rx_desc_lim.nb_align == 0 || DEFAULT_RX_DESC % dev.rx_desc_lim.nb_align != 0 {
        Some(LimitFault::RxDescAlign)
    } else if DEFAULT_TX_DESC > dev.tx_desc_lim.nb_max {
        Some(LimitFault::TxDescMax)
    } else if DEFAULT_TX_DESC < dev.tx_desc_lim.nb_min {
        Some(LimitFault::TxDescMin)
    } else if dev.tx_desc_lim.nb_align == 0 || DEFAULT_TX_DESC % dev.tx_desc_lim.nb_align != 0 {
        Some(LimitFault::TxDescAlign)
    } else {
        None
    }
}

/// `flag` where `capa` advertises any bit of it, else nothing.
pub open spec fn offered(capa: u64, flag: u64) -> u64 {
    if capa & flag > 0 {
        flag
    } else {
        0
    }
}

/// The configuration for a port advertising `dev` that gets `num_rxq`
/// receive queues: hashed spreading over IPv4 TCP and UDP headers where
/// there is more than one receive queue, and every checksum offload that the
/// port advertises.
pub open spec fn port_conf(dev: DevInfo, num_rxq: int) -> PortConf {
    PortConf {
        max_rx_pkt_len: ETHER_MAX_LEN,
        rx_mq_mode: if num_rxq > 1 {
            RxMqMode::Rss
        } else {
            RxMqMode::Single
        },
        tx_mq_mode: TxMqMode::Single,
        rss_hf: if num_rxq > 1 {
            RSS_NONFRAG_IPV4_UDP | RSS_NONFRAG_IPV4_TCP
        } else {
            0
        },
        rx_offloads: offered(dev.rx_offload_capa, RX_OFFLOAD_CHECKSUM),
        tx_offloads: offered(dev.tx_offload_capa, TX_OFFLOAD_IPV4_CKSUM) | offered(
            dev.tx_offload_capa,
            TX_OFFLOAD_UDP_CKSUM,
        ) | offered(dev.tx_offload_capa, TX_OFFLOAD_TCP_CKSUM),
    }
}

/// Chooses the configuration of a port that gets `num_rxq` receive and
/// `num_txq` transmit queues.
pub fn configure_port(dev: &DevInfo, num_rxq: usize, num_txq: usize) -> (conf: PortConf)
    requires
        within_limits(*dev, num_rxq as int, num_txq as int),
    ensures
        conf == port_conf(*dev, num_rxq as int),
{
    let mut conf = PortConf {
        max_rx_pkt_len: ETHER_MAX_LEN,
        rx_mq_mode: RxMqMode::Single,
        tx_mq_mode: TxMqMode::Single,
        rss_hf: 0,
        rx_offloads: 0,
        tx_offloads: 0,
    };
    if num_rxq > 1 {
        conf.rx_mq_mode = RxMqMode::Rss;
        conf.rss_hf = RSS_NONFRAG_IPV4_UDP | RSS_NONFRAG_IPV4_TCP;
    }
    if dev.rx_offload_capa & RX_OFFLOAD_CHECKSUM > 0 {
        conf.rx_offloads = conf.rx_offloads | RX_OFFLOAD_CHECKSUM;
    }
    if dev.tx_offload_capa & TX_OFFLOAD_IPV4_CKSUM > 0 {
        conf.tx_offloads = conf.tx_offloads | TX_OFFLOAD_IPV4_CKSUM;
    }
    if dev.tx_offload_capa & TX_OFFLOAD_UDP_CKSUM > 0 {
        conf.tx_offloads = conf.tx_offloads | TX_OFFLOAD_UDP_CKSUM;
    }
    if dev.tx_offload_capa & TX_OFFLOAD_TCP_CKSUM > 0 {
        conf.tx_offloads = conf.tx_offloads | TX_OFFLOAD_TCP_CKSUM;
    }
    proof {
        assert(forall|x: u64| #![auto] 0u64 | x == x) by (bit_vector);
        assert(forall|x: u64| #![auto] x | 0u64 == x) by (bit_vector);
    }
    conf
}

/// A port is asked for a transmit offload only if it advertises that
/// offload, and for the receive checksum offloads only if it advertises at
/// least one of them; then it is asked for all three.
pub proof fn law_offloads_only_where_advertised(dev: DevInfo, num_rxq: int)
    ensures
        port_conf(dev, num_rxq).tx_offloads & !dev.tx_offload_capa == 0,
        port_conf(dev, num_rxq).rx_offloads == (if dev.rx_offload_capa & RX_OFFLOAD_CHECKSUM
            != 0 {
            RX_OFFLOAD_CHECKSUM
        } else {
            0
        }),
{
    let capa = dev.tx_offload_capa;
    let a = offered(capa, TX_OFFLOAD_IPV4_CKSUM);
    let b = offered(capa, TX_OFFLOAD_UDP_CKSUM);
    let c = offered(capa, TX_OFFLOAD_TCP_CKSUM);
    assert((a | b | c) & !capa == 0) by (bit_vector)
        requires
            a == (if capa & 0x2 > 0 { 0x2u64 } else { 0 }),
            b == (if capa & 0x4 > 0 { 0x4u64 } else { 0 }),
            c == (if capa & 0x8 > 0 { 0x8u64 } else { 0 }),
    ;
}

} // verus!
