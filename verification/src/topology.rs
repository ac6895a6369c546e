//! Grouping of the enabled cores by the socket they sit on.

use vstd::prelude::*;
use crate::ids::{LCoreId, SocketId};

verus! {

/// One enabled logical core as the runtime reports it.
#[derive(Debug, Clone, Copy, PartialEq, Eq, Structural)]
pub struct CoreInfo {
    /// The core's identifier.
    pub id: LCoreId,
    /// The socket the core sits on.
    pub socket: SocketId,
}

/// The cores of `cores` that sit on `socket`, in the order they are listed.
pub open spec fn cores_on(cores: Seq<CoreInfo>, socket: SocketId) -> Seq<LCoreId>
    decreases cores.len(),
{
    if cores.len() == 0 {
        Seq::empty()
    } else {
        let rest = cores_on(cores.drop_last(), socket);
        if cores.last().socket == socket {
            rest.push(cores.last().id)
        } else {
            rest
        }
    }
}

/// The sockets that hold at least one core, each once, in order of first
/// appearance.
pub open spec fn sockets_of(cores: Seq<CoreInfo>) -> Seq<SocketId>
    decreases cores.len(),
{
    if cores.len() == 0 {
        Seq::empty()
    } else {
        let rest = sockets_of(cores.drop_last());
        if rest.contains(cores.last().socket) {
            rest
        } else {
            rest.push(cores.last().socket)
        }
    }
}

/// Every enabled core, in the order the cores are listed.
pub open spec fn all_cores(cores: Seq<CoreInfo>) -> Seq<LCoreId> {
    Seq::new(cores.len(), |i: int| cores[i].id)
}

/// No two entries of `cores` name the same core.
pub open spec fn distinct_cores(cores: Seq<CoreInfo>) -> bool {
    forall|i: int, j: int|
        0 <= i < j < cores.len() ==> (#[trigger] cores[i]).id != (#[trigger] cores[j]).id
}

/// The cores are listed by rising identifier, as enumeration lists them.
pub open spec fn rising_cores(cores: Seq<CoreInfo>) -> bool {
    forall|i: int, j: int|
        0 <= i < j < cores.len() ==> (#[trigger] cores[i]).id.0 < (#[trigger] cores[j]).id.0
}

/// Cores listed by rising identifier are listed once each.
pub proof fn lemma_rising_is_distinct(cores: Seq<CoreInfo>)
    requires
        rising_cores(cores),
    ensures
        distinct_cores(cores),
{
}

/// Whether the cores are listed by rising identifier.
pub fn is_rising(cores: &Vec<CoreInfo>) -> (r: bool)
    ensures
        r == rising_cores(cores@),
{
    let mut i: usize = 1;
    while i < cores.len()
        invariant
            1 <= i,
            forall|a: int, b: int|
                0 <= a < b < i && b < cores.len() ==> (#[trigger] cores@[a]).id.0 < (
                #[trigger] cores@[b]).id.0,
        decreases cores.len() - i,
    {
        if cores[i - 1].id.0 >= cores[i].id.0 {
            return false;
        }
        proof {
            assert forall|a: int, b: int| 0 <= a < b < i + 1 && b < cores.len() implies (
            #[trigger] cores@[a]).id.0 < (#[trigger] cores@[b]).id.0 by {
                if b == i && a < i - 1 {
                    assert(cores@[a].id.0 < cores@[i - 1].id.0);
                }
            }
        }
        i += 1;
    }
    true
}

/// The first position of `x` in `s`, or `s.len()` where `s` does not hold it.
pub open spec fn position<T>(s: Seq<T>, x: T) -> int
    decreases s.len(),
{
    if s.len() == 0 {
        0
    } else {
        let p = position(s.drop_last(), x);
        if p < s.len() - 1 {
            p
        } else if s.last() == x {
            s.len() - 1
        } else {
            s.len() as int
        }
    }
}

/// `position` finds the first occurrence, and only misses what is absent.
pub proof fn lemma_position<T>(s: Seq<T>, x: T)
    ensures
        0 <= position(s, x) <= s.len(),
        position(s, x) < s.len() ==> s[position(s, x)] == x,
        forall|i: int| 0 <= i < position(s, x) ==> s[i] != x,
        position(s, x) < s.len() <==> s.contains(x),
    decreases s.len(),
{
    if s.len() > 0 {
        lemma_position(s.drop_last(), x);
        let p = position(s.drop_last(), x);
        if p < s.len() - 1 {
            assert(s.drop_last()[p] == x);
            assert(s[p] == x);
        }
        assert forall|i: int| 0 <= i < position(s, x) implies s[i] != x by {
            if i < s.len() - 1 {
                assert(s.drop_last()[i] == s[i]);
            }
        }
        if s.contains(x) && position(s, x) >= s.len() {
            let k = choose|k: int| 0 <= k < s.len() && s[k] == x;
            assert(s[k] == x);
            assert(false);
        }
    }
}

/// The cores of `cores` on `socket`, in order.
pub fn cores_on_socket(cores: &Vec<CoreInfo>, socket: SocketId) -> (r: Vec<LCoreId>)
    ensures
        r@ == cores_on(cores@, socket),
{
    let mut r: Vec<LCoreId> = Vec::new();
    let mut i: usize = 0;
    while i < cores.len()
        invariant
            i <= cores.len(),
            r@ == cores_on(cores@.take(i as int), socket),
        decreases cores.len() - i,
    {
        proof {
            assert(cores@.take(i + 1).drop_last() =~= cores@.take(i as int));
        }
        if cores[i].socket == socket {
            r.push(cores[i].id);
        }
        i += 1;
    }
    proof {
        assert(cores@.take(i as int) =~= cores@);
    }
    r
}

/// Whether `s` holds `x`.
pub fn holds_socket(s: &Vec<SocketId>, x: SocketId) -> (r: bool)
    ensures
        r == s@.contains(x),
{
    let mut i: usize = 0;
    while i < s.len()
        invariant
            i <= s.len(),
            forall|k: int| 0 <= k < i ==> s@[k] != x,
        decreases s.len() - i,
    {
        if s[i] == x {
            return true;
        }
        i += 1;
    }
    false
}

/// The sockets that hold a core, each once, in order of first appearance.
pub fn distinct_sockets(cores: &Vec<CoreInfo>) -> (r: Vec<SocketId>)
    ensures
        r@ == sockets_of(cores@),
{
    let mut r: Vec<SocketId> = Vec::new();
    let mut i: usize = 0;
    while i < cores.len()
        invariant
            i <= cores.len(),
            r@ == sockets_of(cores@.take(i as int)),
        decreases cores.len() - i,
    {
        proof {
            assert(cores@.take(i + 1).drop_last() =~= cores@.take(i as int));
        }
        if !holds_socket(&r, cores[i].socket) {
            r.push(cores[i].socket);
        }
        i += 1;
    }
    proof {
        assert(cores@.take(i as int) =~= cores@);
    }
    r
}

/// The socket map as a value: each socket that holds a core, with its cores.
pub open spec fn socket_map(cores: Seq<CoreInfo>) -> Seq<(SocketId, Seq<LCoreId>)> {
    Seq::new(
        sockets_of(cores).len(),
        |k: int| (sockets_of(cores)[k], cores_on(cores, sockets_of(cores)[k])),
    )
}

/// The cores that `groups` lists under `socket`, if it lists the socket.
pub open spec fn group_cores(groups: Seq<(SocketId, Seq<LCoreId>)>, socket: SocketId) -> Option<
    Seq<LCoreId>,
> {
    let sockets = groups.map_values(|g: (SocketId, Seq<LCoreId>)| g.0);
    let p = position(sockets, socket);
    if p < groups.len() {
        Some(groups[p].1)
    } else {
        None
    }
}

/// A socket is listed exactly when a core sits on it.
pub proof fn lemma_sockets_of_contains(cores: Seq<CoreInfo>, socket: SocketId)
    ensures
        sockets_of(cores).contains(socket) <==> cores_on(cores, socket).len() > 0,
        sockets_of(cores).contains(socket) <==> exists|i: int|
            0 <= i < cores.len() && (#[trigger] cores[i]).socket == socket,
    decreases cores.len(),
{
    if cores.len() > 0 {
        let init = cores.drop_last();
        lemma_sockets_of_contains(init, socket);
        let rest = sockets_of(init);
        if rest.contains(socket) {
            let k = choose|k: int| 0 <= k < rest.len() && rest[k] == socket;
            assert(sockets_of(cores)[k] == socket);
            let i = choose|i: int| 0 <= i < init.len() && (#[trigger] init[i]).socket == socket;
            assert(cores[i].socket == socket);
        } else if cores.last().socket == socket {
            assert(sockets_of(cores).last() == socket);
            assert(cores[cores.len() - 1].socket == socket);
        } else {
            if sockets_of(cores).contains(socket) {
                let k = choose|k: int| 0 <= k < sockets_of(cores).len() && sockets_of(cores)[k] == socket;
                if k < rest.len() {
                    assert(rest[k] == socket);
                }
                assert(false);
            }
            if exists|i: int| 0 <= i < cores.len() && (#[trigger] cores[i]).socket == socket {
                let i = choose|i: int| 0 <= i < cores.len() && (#[trigger] cores[i]).socket == socket;
                assert(init[i].socket == socket);
                assert(false);
            }
        }
    }
}

/// The socket map lists under a socket exactly the cores that sit on it, and
/// lists no socket without a core.
pub proof fn lemma_socket_map_lookup(cores: Seq<CoreInfo>, socket: SocketId)
    ensures
        group_cores(socket_map(cores), socket) == if cores_on(cores, socket).len() > 0 {
            Some(cores_on(cores, socket))
        } else {
            None
        },
{
    let groups = socket_map(cores);
    let sockets = groups.map_values(|g: (SocketId, Seq<LCoreId>)| g.0);
    assert(sockets =~= sockets_of(cores));
    lemma_position(sockets, socket);
    lemma_sockets_of_contains(cores, socket);
}

/// One socket of the map with the cores that sit on it.
#[derive(Debug)]
pub struct SocketGroup {
    /// The socket.
    pub socket: SocketId,
    /// Its cores, in the order they were enumerated.
    pub cores: Vec<LCoreId>,
}

/// The map from each socket that holds a core to the cores on it.
#[derive(Debug)]
pub struct SocketMap {
    groups: Vec<SocketGroup>,
    every: Vec<LCoreId>,
}

impl View for SocketMap {
    type V = Seq<(SocketId, Seq<LCoreId>)>;

    closed spec fn view(&self) -> Seq<(SocketId, Seq<LCoreId>)> {
        self.groups@.map_values(|g: SocketGroup| (g.socket, g.cores@))
    }
}

impl SocketMap {
    /// Every core of the map, in the order the cores were listed.
    pub closed spec fn every(&self) -> Seq<LCoreId> {
        self.every@
    }

    /// The map is that of `cores`: it groups them by socket and lists every
    /// one of them.
    pub open spec fn maps(&self, cores: Seq<CoreInfo>) -> bool {
        self@ == socket_map(cores) && self.every() == all_cores(cores)
    }

    /// Groups `cores` by socket.
    pub fn build(cores: &Vec<CoreInfo>) -> (m: SocketMap)
        ensures
            m.maps(cores@),
    {
        let sockets = distinct_sockets(cores);
        let mut groups: Vec<SocketGroup> = Vec::new();
        let mut k: usize = 0;
        while k < sockets.len()
            invariant
                k <= sockets.len(),
                sockets@ == sockets_of(cores@),
                groups@.len() == k,
                forall|j: int|
                    0 <= j < k ==> (#[trigger] groups@[j]).socket == sockets@[j] && groups@[j].cores@
                        == cores_on(cores@, sockets@[j]),
            decreases sockets.len() - k,
        {
            let socket = sockets[k];
            let on = cores_on_socket(cores, socket);
            groups.push(SocketGroup { socket, cores: on });
            k += 1;
        }
        let mut every: Vec<LCoreId> = Vec::new();
        let mut i: usize = 0;
        while i < cores.len()
            invariant
                i <= cores.len(),
                every@.len() == i,
                forall|j: int| 0 <= j < i ==> every@[j] == cores@[j].id,
            decreases cores.len() - i,
        {
            every.push(cores[i].id);
            i += 1;
        }
        let m = SocketMap { groups, every };
        proof {
            assert(m@ =~= socket_map(cores@));
            assert(m.every() =~= all_cores(cores@));
        }
        m
    }

    /// How many sockets the map lists.
    pub fn len(&self) -> (n: usize)
        ensures
            n == self@.len(),
    {
        self.groups.len()
    }

    /// The cores on `socket`, or `None` where no core sits on it.
    pub fn get(&self, socket: SocketId) -> (r: Option<&Vec<LCoreId>>)
        ensures
            match r {
                Some(v) => group_cores(self@, socket) == Some(v@),
                None => group_cores(self@, socket).is_none(),
            },
    {
        let ghost sockets = self@.map_values(|g: (SocketId, Seq<LCoreId>)| g.0);
        let mut k: usize = 0;
        while k < self.groups.len()
            invariant
                k <= self.groups.len(),
                sockets == self@.map_values(|g: (SocketId, Seq<LCoreId>)| g.0),
                forall|j: int| 0 <= j < k ==> sockets[j] != socket,
            decreases self.groups.len() - k,
        {
            if self.groups[k].socket == socket {
                proof {
                    lemma_position(sockets, socket);
                    assert(sockets[k as int] == socket);
                }
                return Some(&self.groups[k].cores);
            }
            k += 1;
        }
        proof {
            lemma_position(sockets, socket);
        }
        None
    }

    /// Every core of the map, in the order the cores were listed.
    pub fn all_cores(&self) -> (r: Vec<LCoreId>)
        ensures
            r@ == self.every(),
    {
        let mut r: Vec<LCoreId> = Vec::new();
        let mut i: usize = 0;
        while i < self.every.len()
            invariant
                i <= self.every.len(),
                r@.len() == i,
                forall|j: int| 0 <= j < i ==> r@[j] == self.every@[j],
            decreases self.every.len() - i,
        {
            r.push(self.every[i]);
            i += 1;
        }
        proof {
            assert(r@ =~= self.every());
        }
        r
    }
}

} // verus!
