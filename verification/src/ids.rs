//! Identifiers and small value types shared by the whole library.

use vstd::prelude::*;
use vstd::std_specs::convert::{FromSpecImpl, TryFromSpecImpl};

verus! {

/// Status code a second `setup` is answered with (`EALREADY`).
pub const EALREADY: u8 = 114;

/// Magnitude of the status by which runtime teardown reports that it is not
/// implemented (`ENOTSUP`).
pub const ENOTSUP: i32 = 95;

/// Identifier of one enabled logical core.
#[derive(Debug, Clone, Copy, Hash, PartialEq, Eq, Ord, Structural)]
pub struct LCoreId(pub u32);

impl LCoreId {
    /// The identifier with number `id`.
    #[inline]
    pub fn new(id: u32) -> (r: Self)
        ensures
            r == LCoreId(id),
            r.0 == id,
    {
        Self(id)
    }
}

/// Identifier of one memory-locality domain (NUMA node).
#[derive(Debug, Clone, Copy, Hash, PartialEq, Eq, Ord, Structural)]
pub struct SocketId(pub u32);

impl SocketId {
    /// The identifier with number `id`.
    #[inline]
    pub fn new(id: u32) -> (r: Self)
        ensures
            r == SocketId(id),
            r.0 == id,
    {
        Self(id)
    }
}

/// How queues of a port are spread over the cores.
#[derive(Debug, Clone, Copy, Hash, PartialEq, Eq, Structural)]
pub enum Affinity {
    /// Every port creates a queue for every enabled core.
    Full,
    /// A port creates queues only for the cores on its own socket.
    Numa,
}

impl From<LCoreId> for u32 {
    #[inline]
    fn from(id: LCoreId) -> (r: u32) {
        id.0
    }
}

impl FromSpecImpl<LCoreId> for u32 {
    open spec fn obeys_from_spec() -> bool {
        true
    }

    open spec fn from_spec(id: LCoreId) -> u32 {
        id.0
    }
}

impl From<SocketId> for u32 {
    #[inline]
    fn from(id: SocketId) -> (r: u32) {
        id.0
    }
}

impl FromSpecImpl<SocketId> for u32 {
    open spec fn obeys_from_spec() -> bool {
        true
    }

    open spec fn from_spec(id: SocketId) -> u32 {
        id.0
    }
}

impl SocketId {
    /// The socket that a hardware query names with `raw`; `None` where the
    /// answer is negative, which names no socket.
    pub fn from_raw(raw: i32) -> (r: Option<SocketId>)
        ensures
            raw < 0 ==> r.is_none(),
            raw >= 0 ==> r == Some(SocketId(raw as u32)),
    {
        if raw < 0 {
            None
        } else {
            Some(SocketId(raw as u32))
        }
    }
}

/// A status code of the runtime, as a positive number.
#[derive(Debug, Clone, Copy, Hash, PartialEq, Eq, Ord, Structural)]
pub struct ErrorCode(pub u8);

/// A number that is no status code: it does not fit in eight bits.
#[derive(Debug, Clone, Copy, PartialEq, Eq, Structural)]
pub struct CodeOutOfRange;

impl From<ErrorCode> for u8 {
    #[inline]
    fn from(code: ErrorCode) -> (r: u8) {
        code.0
    }
}

impl FromSpecImpl<ErrorCode> for u8 {
    open spec fn obeys_from_spec() -> bool {
        true
    }

    open spec fn from_spec(code: ErrorCode) -> u8 {
        code.0
    }
}

impl From<u8> for ErrorCode {
    #[inline]
    fn from(id: u8) -> (r: ErrorCode) {
        ErrorCode(id)
    }
}

impl FromSpecImpl<u8> for ErrorCode {
    open spec fn obeys_from_spec() -> bool {
        true
    }

    open spec fn from_spec(id: u8) -> ErrorCode {
        ErrorCode(id)
    }
}

impl TryFrom<u32> for ErrorCode {
    type Error = CodeOutOfRange;

    /// The code with number `id`, where it fits.
    #[inline]
    fn try_from(id: u32) -> (r: Result<ErrorCode, CodeOutOfRange>) {
        if id <= 0xff {
            Ok(ErrorCode(id as u8))
        } else {
            Err(CodeOutOfRange)
        }
    }
}

impl TryFromSpecImpl<u32> for ErrorCode {
    open spec fn obeys_try_from_spec() -> bool {
        true
    }

    open spec fn try_from_spec(id: u32) -> Result<ErrorCode, CodeOutOfRange> {
        if id <= 0xff {
            Ok(ErrorCode(id as u8))
        } else {
            Err(CodeOutOfRange)
        }
    }
}

impl TryFrom<i32> for ErrorCode {
    type Error = CodeOutOfRange;

    /// The code that the negative status `id` reports: its magnitude, where
    /// that fits.
    #[inline]
    fn try_from(id: i32) -> (r: Result<ErrorCode, CodeOutOfRange>) {
        if -0xff <= id && id <= 0 {
            Ok(ErrorCode((-id) as u8))
        } else {
            Err(CodeOutOfRange)
        }
    }
}

impl TryFromSpecImpl<i32> for ErrorCode {
    open spec fn obeys_try_from_spec() -> bool {
        true
    }

    open spec fn try_from_spec(id: i32) -> Result<ErrorCode, CodeOutOfRange> {
        if -0xff <= id <= 0 {
            Ok(ErrorCode((-id) as u8))
        } else {
            Err(CodeOutOfRange)
        }
    }
}

/// Why the runtime could not be brought up.
#[derive(Debug, Clone, Copy, PartialEq, Eq, Structural)]
pub enum EalError {
    /// The initializer answered with the negative status `code`.
    ErrorCode {
        /// The status, as the initializer returned it.
        code: i32,
    },
}

} // verus!
