//! Handles of the hardware queues of a port.

use vstd::prelude::*;
use crate::naming::{rx_pool_name, rx_pool_name_of};
use crate::port::Port;

verus! {

/// One receive queue of a port. It owns a buffer pool of its own, named
/// after the port and the queue.
#[derive(Debug, Clone, Copy, PartialEq, Eq, Structural)]
pub struct RxQ {
    /// Index of the queue on its port.
    pub queue_id: u16,
    /// The port the queue belongs to.
    pub port: Port,
}

impl RxQ {
    /// The name of the buffer pool that the queue owns.
    pub open spec fn pool_name_spec(&self) -> Seq<char> {
        rx_pool_name(self.port.port_id as nat, self.queue_id as nat)
    }

    /// The name of the buffer pool that the queue owns.
    pub fn pool_name(&self) -> (name: String)
        ensures
            name@ == self.pool_name_spec(),
    {
        rx_pool_name_of(self.port.port_id, self.queue_id as usize)
    }
}

/// One transmit queue of a port. It owns no pool: it sends buffers of any
/// pool.
#[derive(Debug, Clone, Copy, PartialEq, Eq, Structural)]
pub struct TxQ {
    /// Index of the queue on its port.
    pub queue_id: u16,
    /// The port the queue belongs to.
    pub port: Port,
}

} // verus!
