//! Enumeration: from what the runtime answers for every core slot and every
//! port slot to the list of enabled cores and the list of valid ports.

use vstd::prelude::*;
use crate::ids::{LCoreId, SocketId};
use crate::port::{distinct_ports, DevInfo, Port, PortInfo};
use crate::topology::{distinct_cores, rising_cores, CoreInfo};

verus! {

/// What the runtime answers for one port slot that holds a valid port.
#[derive(Debug, Clone, Copy, PartialEq, Eq, Structural)]
pub struct PortSlot {
    /// Socket the port's hardware is attached to.
    pub socket: SocketId,
    /// What the port advertises.
    pub dev: DevInfo,
}

/// The enabled cores among the core slots `slots`, by rising identifier. A
/// slot's index is its core's identifier; an enabled slot holds the core's
/// socket.
pub open spec fn enabled_cores(slots: Seq<Option<SocketId>>) -> Seq<CoreInfo>
    decreases slots.len(),
{
    if slots.len() == 0 {
        Seq::empty()
    } else {
        let rest = enabled_cores(slots.drop_last());
        match slots.last() {
            Some(socket) => rest.push(CoreInfo { id: LCoreId((slots.len() - 1) as u32), socket }),
            None => rest,
        }
    }
}

/// The valid ports among the port slots `slots`, by rising index. A slot's
/// index is its port's index.
pub open spec fn valid_ports(slots: Seq<Option<PortSlot>>) -> Seq<PortInfo>
    decreases slots.len(),
{
    if slots.len() == 0 {
        Seq::empty()
    } else {
        let rest = valid_ports(slots.drop_last());
        match slots.last() {
            Some(slot) => rest.push(
                PortInfo {
                    port: Port { port_id: (slots.len() - 1) as u16, socket: slot.socket },
                    dev: slot.dev,
                },
            ),
            None => rest,
        }
    }
}

/// Enumeration lists the cores by rising identifier, so none twice, and
/// every listed core has an identifier below the number of slots.
pub proof fn lemma_enabled_cores(slots: Seq<Option<SocketId>>)
    requires
        slots.len() <= u32::MAX + 1,
    ensures
        forall|i: int|
            0 <= i < enabled_cores(slots).len() ==> (#[trigger] enabled_cores(slots)[i]).id.0
                < slots.len(),
        forall|i: int, j: int|
            0 <= i < j < enabled_cores(slots).len() ==> (#[trigger] enabled_cores(slots)[i]).id.0 < (
            #[trigger] enabled_cores(slots)[j]).id.0,
        rising_cores(enabled_cores(slots)),
        distinct_cores(enabled_cores(slots)),
    decreases slots.len(),
{
    if slots.len() > 0 {
        lemma_enabled_cores(slots.drop_last());
    }
}

/// Enumeration lists no port twice: every listed port has an index below
/// the number of slots, and the indices rise.
pub proof fn lemma_valid_ports(slots: Seq<Option<PortSlot>>)
    requires
        slots.len() <= u16::MAX + 1,
    ensures
        forall|i: int|
            0 <= i < valid_ports(slots).len() ==> (#[trigger] valid_ports(slots)[i]).port.port_id
                < slots.len(),
        forall|i: int, j: int|
            0 <= i < j < valid_ports(slots).len() ==> (#[trigger] valid_ports(
                slots,
            )[i]).port.port_id < (#[trigger] valid_ports(slots)[j]).port.port_id,
        distinct_ports(valid_ports(slots)),
    decreases slots.len(),
{
    if slots.len() > 0 {
        lemma_valid_ports(slots.drop_last());
    }
}

/// Lists the enabled cores.
pub fn enumerate_cores(slots: &Vec<Option<SocketId>>) -> (cores: Vec<CoreInfo>)
    requires
        slots.len() <= u32::MAX + 1,
    ensures
        cores@ == enabled_cores(slots@),
        rising_cores(cores@),
        distinct_cores(cores@),
{
    let mut cores: Vec<CoreInfo> = Vec::new();
    let mut i: usize = 0;
    while i < slots.len()
        invariant
            i <= slots.len() <= u32::MAX + 1,
            cores@ == enabled_cores(slots@.take(i as int)),
        decreases slots.len() - i,
    {
        proof {
            assert(slots@.take(i + 1).drop_last() =~= slots@.take(i as int));
        }
        match slots[i] {
            Some(socket) => {
                cores.push(CoreInfo { id: LCoreId::new(i as u32), socket });
            },
            None => {},
        }
        i += 1;
    }
    proof {
        assert(slots@.take(i as int) =~= slots@);
        lemma_enabled_cores(slots@);
    }
    cores
}

/// Lists the valid ports.
pub fn enumerate_ports(slots: &Vec<Option<PortSlot>>) -> (ports: Vec<PortInfo>)
    requires
        slots.len() <= u16::MAX + 1,
    ensures
        ports@ == valid_ports(slots@),
        distinct_ports(ports@),
{
    let mut ports: Vec<PortInfo> = Vec::new();
    let mut i: usize = 0;
    while i < slots.len()
        invariant
            i <= slots.len() <= u16::MAX + 1,
            ports@ == valid_ports(slots@.take(i as int)),
        decreases slots.len() - i,
    {
        proof {
            assert(slots@.take(i + 1).drop_last() =~= slots@.take(i as int));
        }
        match slots[i] {
            Some(slot) => {
                ports.push(
                    PortInfo {
                        port: Port { port_id: i as u16, socket: slot.socket },
                        dev: slot.dev,
                    },
                );
            },
            None => {},
        }
        i += 1;
    }
    proof {
        assert(slots@.take(i as int) =~= slots@);
        lemma_valid_ports(slots@);
    }
    ports
}

} // verus!
