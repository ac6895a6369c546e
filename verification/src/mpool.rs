//! Buffer pools and the packet buffers drawn from them.

use vstd::prelude::*;
use crate::eal::Eal;
use crate::ids::SocketId;
use crate::naming::{digit_value, lemma_decimal, rx_pool_name};
use crate::queue::RxQ;

verus! {

/// Buffers in the pool of a receive queue.
pub const DEFAULT_RX_POOL_SIZE: usize = 1024;

/// Per-core cache of the pool of a receive queue.
pub const DEFAULT_RX_PER_CORE_CACHE: usize = 0;

/// Private area of each buffer in the pool of a receive queue.
pub const DEFAULT_MBUF_PRIV_SIZE: usize = 0;

/// Payload bytes of each buffer in the pool of a receive queue.
pub const DEFAULT_PACKET_DATA_LENGTH: usize = 2048;

/// The socket argument that stands for "no constraint" (`SOCKET_ID_ANY`).
pub const SOCKET_ID_ANY: i32 = -1;

/// A named, fixed-capacity pool of packet buffers, as the arguments that the
/// native allocator is given for it.
#[derive(Debug)]
pub struct MPool {
    /// Name of the pool, unique in the process.
    pub name: String,
    /// Number of buffers.
    pub n: u32,
    /// Size of the per-core cache.
    pub cache_size: u32,
    /// Size of the private area between a buffer's header and its payload.
    pub priv_size: u16,
    /// Payload bytes of each buffer.
    pub data_room_size: u16,
    /// Socket to allocate on, or `SOCKET_ID_ANY`.
    pub socket_id: i32,
}

/// Whether `name` can name a pool: it holds no NUL character.
pub open spec fn name_ok(name: Seq<char>) -> bool {
    forall|i: int| 0 <= i < name.len() ==> name[i] != '\0'
}

/// Whether a pool can be described by these sizes: each fits the native
/// argument it is passed as.
pub open spec fn sizes_ok(n: usize, priv_size: usize, data_room_size: usize) -> bool {
    &&& n <= u32::MAX
    &&& priv_size <= u16::MAX
    &&& data_room_size <= u16::MAX
}

/// The native socket argument for a socket constraint: the socket's number
/// reinterpreted as a signed number, or `SOCKET_ID_ANY` for none.
pub open spec fn socket_arg(socket_id: Option<SocketId>) -> i32 {
    match socket_id {
        Some(s) => if s.0 <= i32::MAX {
            s.0 as i32
        } else {
            (s.0 - 0x1_0000_0000) as i32
        },
        None => SOCKET_ID_ANY,
    }
}

/// The native socket argument for a socket constraint.
pub fn socket_arg_of(socket_id: Option<SocketId>) -> (r: i32)
    ensures
        r == socket_arg(socket_id),
{
    match socket_id {
        Some(s) => if s.0 <= 0x7fff_ffff {
            s.0 as i32
        } else {
            (s.0 - 0x8000_0000) as i32 + i32::MIN
        },
        None => SOCKET_ID_ANY,
    }
}

/// Whether `name` can name a pool.
pub fn check_name(name: &str) -> (r: bool)
    ensures
        r == name_ok(name@),
{
    let len = name.unicode_len();
    let mut i: usize = 0;
    while i < len
        invariant
            i <= len,
            len == name@.len(),
            forall|k: int| 0 <= k < i ==> name@[k] != '\0',
        decreases len - i,
    {
        if name.get_char(i) == '\0' {
            return false;
        }
        i += 1;
    }
    true
}

/// A buffer drawn from a pool. It must not outlive its pool.
#[derive(Debug)]
pub struct Packet {
    ptr: usize,
}

impl Packet {
    #[verifier::type_invariant]
    spec fn wf(&self) -> bool {
        self.ptr != 0
    }

    /// The native reference of the buffer.
    pub closed spec fn addr_spec(&self) -> usize {
        self.ptr
    }

    /// The native reference of the buffer; never null.
    pub fn addr(&self) -> (a: usize)
        ensures
            a == self.addr_spec(),
            a != 0,
    {
        proof {
            use_type_invariant(self);
        }
        self.ptr
    }
}

/// The native pool that the allocator made for a pool.
#[derive(Debug)]
pub struct NativePool {
    ptr: usize,
}

impl NativePool {
    #[verifier::type_invariant]
    spec fn wf(&self) -> bool {
        self.ptr != 0
    }

    /// The native reference of the pool.
    pub closed spec fn addr_spec(&self) -> usize {
        self.ptr
    }

    /// The native reference of the pool; never null.
    pub fn addr(&self) -> (a: usize)
        ensures
            a == self.addr_spec(),
            a != 0,
    {
        proof {
            use_type_invariant(self);
        }
        self.ptr
    }
}

impl MPool {
    /// Whether a pool can be made of these arguments.
    pub fn admits(name: &str, n: usize, priv_size: usize, data_room_size: usize) -> (r: bool)
        ensures
            r == (name_ok(name@) && sizes_ok(n, priv_size, data_room_size)),
    {
        n as u64 <= 0xffff_ffff && priv_size <= 0xffff && data_room_size <= 0xffff && check_name(name)
    }

    /// Describes a pool of `n` buffers of `data_room_size` payload bytes.
    ///
    /// The per-core cache size is passed on in 32 bits, whatever does not
    /// fit cut off.
    pub fn new(
        eal: &Eal,
        name: &str,
        n: usize,
        cache_size: usize,
        priv_size: usize,
        data_room_size: usize,
        socket_id: Option<SocketId>,
    ) -> (pool: MPool)
        requires
            name_ok(name@),
            sizes_ok(n, priv_size, data_room_size),
        ensures
            pool.name@ == name@,
            pool.n == n,
            pool.cache_size == cache_size as int % 0x1_0000_0000,
            pool.priv_size == priv_size,
            pool.data_room_size == data_room_size,
            pool.socket_id == socket_arg(socket_id),
    {
        MPool {
            name: String::from_str(name),
            n: n as u32,
            cache_size: (cache_size as u64 % 0x1_0000_0000) as u32,
            priv_size: priv_size as u16,
            data_room_size: data_room_size as u16,
            socket_id: socket_arg_of(socket_id),
        }
    }

    /// Reads what the native allocator returned for the pool: nothing where
    /// it returned null, which it does when it cannot make the pool, as
    /// when a living pool has the same name.
    pub fn created(&self, native: usize) -> (r: Option<NativePool>)
        ensures
            native == 0 <==> r.is_none(),
            native != 0 ==> r.unwrap().addr_spec() == native,
    {
        if native == 0 {
            None
        } else {
            Some(NativePool { ptr: native })
        }
    }

    /// Makes a buffer handle of what the native allocator returned: nothing
    /// where it returned null, which it does when the pool is exhausted.
    pub fn allocate_one(&self, native: usize) -> (r: Option<Packet>)
        ensures
            native == 0 <==> r.is_none(),
            native != 0 ==> r.unwrap().addr_spec() == native,
    {
        if native == 0 {
            None
        } else {
            Some(Packet { ptr: native })
        }
    }
}

/// The name of a receive queue's pool can name a pool.
pub proof fn lemma_rx_pool_name_ok(port_id: nat, queue: nat)
    ensures
        name_ok(rx_pool_name(port_id, queue)),
{
    reveal_strlit("rxq_be0dd4ab_");
    let prefix = "rxq_be0dd4ab_"@;
    let name = rx_pool_name(port_id, queue);
    let a = crate::naming::decimal(port_id);
    let b = crate::naming::decimal(queue);
    lemma_decimal(port_id);
    lemma_decimal(queue);
    assert forall|i: int| 0 <= i < name.len() implies name[i] != '\0' by {
        if i < prefix.len() {
            assert(name[i] == prefix[i]);
        } else if i < prefix.len() + a.len() {
            assert(name[i] == a[i - prefix.len()]);
            assert(digit_value(a[i - prefix.len()]) < 10);
        } else if i == prefix.len() + a.len() {
            assert(name[i] == '_');
        } else {
            assert(name[i] == b[i - prefix.len() - a.len() - 1]);
            assert(digit_value(b[i - prefix.len() - a.len() - 1]) < 10);
        }
    }
}

impl RxQ {
    /// The buffer pool that the queue owns: named after the port and the
    /// queue, of the default sizes, on the port's socket.
    pub fn mpool(&self, eal: &Eal) -> (pool: MPool)
        ensures
            pool.name@ == self.pool_name_spec(),
            pool.n == DEFAULT_RX_POOL_SIZE,
            pool.cache_size == DEFAULT_RX_PER_CORE_CACHE,
            pool.priv_size == DEFAULT_MBUF_PRIV_SIZE,
            pool.data_room_size == DEFAULT_PACKET_DATA_LENGTH,
            pool.socket_id == socket_arg(Some(self.port.socket)),
    {
        let pool_name = self.pool_name();
        proof {
            lemma_rx_pool_name_ok(self.port.port_id as nat, self.queue_id as nat);
        }
        MPool::new(
            eal,
            pool_name.as_str(),
            DEFAULT_RX_POOL_SIZE,
            DEFAULT_RX_PER_CORE_CACHE,
            DEFAULT_MBUF_PRIV_SIZE,
            DEFAULT_PACKET_DATA_LENGTH,
            Some(self.port.socket_id()),
        )
    }
}

} // verus!
