//! Resource lifecycle and queue-affinity assignment for a kernel-bypass
//! packet I/O runtime.
//!
//! The library decides; it never touches hardware. A caller hands it a
//! snapshot of the enabled cores and valid ports, and gets back the queue
//! topology together with the ordered list of hardware operations that
//! realise it.

pub mod ids;
pub mod order;
pub mod topology;
pub mod port;
pub mod naming;
pub mod queue;
pub mod assign;
pub mod script;
pub mod eal;
pub mod mpool;
pub mod laws;
pub mod utils;
pub mod scan;
pub mod lifecycle;
