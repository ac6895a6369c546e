//! The environment handle and its one-time setup.

use vstd::prelude::*;
use crate::assign::{
    assignment, assignment_view, eligible, extract_rxtx_lcores, feasible, lemma_eligible_in,
    lemma_feasible_port, place_of, rx_queues_of, setup_assignment, tx_queues_of,
};
use crate::ids::{Affinity, EalError, ErrorCode, LCoreId, EALREADY, ENOTSUP};
use crate::port::PortInfo;
use crate::queue::{RxQ, TxQ};
use crate::topology::{lemma_socket_map_lookup, rising_cores, CoreInfo, SocketMap};

verus! {

/// The initialized runtime. It remembers whether `setup` has been done.
#[derive(Debug)]
pub struct Eal {
    setup_initialized: bool,
}

/// What a call of `setup` leaves behind and returns, given whether setup had
/// been done before: a second setup is refused with `EALREADY` and changes
/// nothing; a first one marks setup as done and returns the assignment.
pub open spec fn setup_step(
    initialized: bool,
    cores: Seq<CoreInfo>,
    ports: Seq<PortInfo>,
    rx: Affinity,
    tx: Affinity,
) -> (bool, Result<Seq<(LCoreId, Seq<RxQ>, Seq<TxQ>)>, ErrorCode>) {
    if initialized {
        (true, Err(ErrorCode(EALREADY)))
    } else {
        (true, Ok(setup_assignment(cores, ports, rx, tx)))
    }
}

/// What the result of `setup` holds.
pub open spec fn setup_result_view(r: Result<Vec<(LCoreId, Vec<RxQ>, Vec<TxQ>)>, ErrorCode>) -> Result<
    Seq<(LCoreId, Seq<RxQ>, Seq<TxQ>)>,
    ErrorCode,
> {
    match r {
        Ok(v) => Ok(assignment_view(v@)),
        Err(e) => Err(e),
    }
}

/// The receive queues of `core`, given for each port its eligible cores.
fn rx_queues_for(
    core: LCoreId,
    ports: &Vec<PortInfo>,
    lists: &Vec<Vec<LCoreId>>,
    Ghost(cores): Ghost<Seq<CoreInfo>>,
    Ghost(rx): Ghost<Affinity>,
) -> (r: Vec<RxQ>)
    requires
        lists.len() == ports.len(),
        forall|k: int|
            0 <= k < ports.len() ==> (#[trigger] lists@[k])@ == eligible(
                cores,
                ports@[k].port.socket,
                rx,
            ) && lists@[k]@.len() <= u16::MAX,
    ensures
        r@ == rx_queues_of(core, cores, ports@, rx),
{
    let mut r: Vec<RxQ> = Vec::new();
    let mut k: usize = 0;
    while k < ports.len()
        invariant
            k <= ports.len(),
            lists.len() == ports.len(),
            forall|k: int|
                0 <= k < ports.len() ==> (#[trigger] lists@[k])@ == eligible(
                    cores,
                    ports@[k].port.socket,
                    rx,
                ) && lists@[k]@.len() <= u16::MAX,
            r@ == rx_queues_of(core, cores, ports@.take(k as int), rx),
        decreases ports.len() - k,
    {
        proof {
            assert(ports@.take(k + 1).drop_last() =~= ports@.take(k as int));
        }
        let place = place_of(&lists[k], core);
        if place < lists[k].len() {
            r.push(RxQ { queue_id: place as u16, port: ports[k].port });
        }
        k += 1;
    }
    proof {
        assert(ports@.take(k as int) =~= ports@);
    }
    r
}

/// The transmit queues of `core`, given for each port its eligible cores.
fn tx_queues_for(
    core: LCoreId,
    ports: &Vec<PortInfo>,
    lists: &Vec<Vec<LCoreId>>,
    Ghost(cores): Ghost<Seq<CoreInfo>>,
    Ghost(tx): Ghost<Affinity>,
) -> (r: Vec<TxQ>)
    requires
        lists.len() == ports.len(),
        forall|k: int|
            0 <= k < ports.len() ==> (#[trigger] lists@[k])@ == eligible(
                cores,
                ports@[k].port.socket,
                tx,
            ) && lists@[k]@.len() <= u16::MAX,
    ensures
        r@ == tx_queues_of(core, cores, ports@, tx),
{
    let mut r: Vec<TxQ> = Vec::new();
    let mut k: usize = 0;
    while k < ports.len()
        invariant
            k <= ports.len(),
            lists.len() == ports.len(),
            forall|k: int|
                0 <= k < ports.len() ==> (#[trigger] lists@[k])@ == eligible(
                    cores,
                    ports@[k].port.socket,
                    tx,
                ) && lists@[k]@.len() <= u16::MAX,
            r@ == tx_queues_of(core, cores, ports@.take(k as int), tx),
        decreases ports.len() - k,
    {
        proof {
            assert(ports@.take(k + 1).drop_last() =~= ports@.take(k as int));
        }
        let place = place_of(&lists[k], core);
        if place < lists[k].len() {
            r.push(TxQ { queue_id: place as u16, port: ports[k].port });
        }
        k += 1;
    }
    proof {
        assert(ports@.take(k as int) =~= ports@);
    }
    r
}

impl Eal {
    /// Whether `setup` has been done.
    pub closed spec fn initialized(&self) -> bool {
        self.setup_initialized
    }

    /// Whether `setup` has been done.
    pub fn is_initialized(&self) -> (r: bool)
        ensures
            r == self.initialized(),
    {
        self.setup_initialized
    }

    /// What a call of `setup` would be refused with: `EALREADY` where setup
    /// has been done, nothing where it has not.
    pub fn check_reentry(&self) -> (r: Option<ErrorCode>)
        ensures
            r == if self.initialized() {
                Some(ErrorCode(EALREADY))
            } else {
                None
            },
    {
        if self.setup_initialized {
            Some(ErrorCode(EALREADY))
        } else {
            None
        }
    }

    /// Takes note of how the runtime's initializer answered. `status` is
    /// what it returned for `args`: the number of arguments it consumed, or
    /// a negative status. On success the consumed arguments are removed from
    /// `args`; on failure `args` is left as it was.
    pub fn new(args: &mut Vec<String>, status: i32) -> (r: Result<Eal, EalError>)
        requires
            status <= old(args).len(),
        ensures
            status < 0 ==> r == Err::<Eal, EalError>(EalError::ErrorCode { code: status })
                && final(args)@ == old(args)@,
            status >= 0 ==> r.is_ok() && !r.unwrap().initialized() && final(args)@ == old(
                args,
            )@.skip(status as int),
    {
        if status < 0 {
            return Err(EalError::ErrorCode { code: status });
        }
        let rest = args.split_off(status as usize);
        *args = rest;
        Ok(Eal { setup_initialized: false })
    }

    /// Assigns the queues of every port to the cores, once.
    ///
    /// A second call is refused with `EALREADY` and changes nothing. The
    /// first call returns, for every core that gets a queue, the core with
    /// its receive queues and its transmit queues. The cores are listed by
    /// rising identifier, as enumeration lists them; on each port, queue
    /// index `i` goes to the eligible core with the `i`-th smallest
    /// identifier.
    pub fn setup(
        &mut self,
        cores: &Vec<CoreInfo>,
        ports: &Vec<PortInfo>,
        rx_affinity: Affinity,
        tx_affinity: Affinity,
    ) -> (r: Result<Vec<(LCoreId, Vec<RxQ>, Vec<TxQ>)>, ErrorCode>)
        requires
            !old(self).initialized() ==> rising_cores(cores@) && feasible(
                cores@,
                ports@,
                rx_affinity,
                tx_affinity,
            ),
        ensures
            (final(self).initialized(), setup_result_view(r)) == setup_step(
                old(self).initialized(),
                cores@,
                ports@,
                rx_affinity,
                tx_affinity,
            ),
            old(self).initialized() ==> *final(self) == *old(self),
            r matches Ok(v) ==> {
                let given = setup_assignment(cores@, ports@, rx_affinity, tx_affinity);
                &&& v@.len() == given.len()
                &&& forall|a: int|
                    0 <= a < v@.len() ==> (#[trigger] v@[a]).0 == given[a].0 && v@[a].1@
                        == given[a].1 && v@[a].2@ == given[a].2
            },
    {
        if let Some(code) = self.check_reentry() {
            return Err(code);
        }
        let map = SocketMap::build(cores);
        let mut rx_lists: Vec<Vec<LCoreId>> = Vec::new();
        let mut tx_lists: Vec<Vec<LCoreId>> = Vec::new();
        let mut k: usize = 0;
        while k < ports.len()
            invariant
                k <= ports.len(),
                map.maps(cores@),
                feasible(cores@, ports@, rx_affinity, tx_affinity),
                rx_lists.len() == k,
                tx_lists.len() == k,
                forall|j: int|
                    0 <= j < k ==> (#[trigger] rx_lists@[j])@ == eligible(
                        cores@,
                        ports@[j].port.socket,
                        rx_affinity,
                    ) && rx_lists@[j]@.len() <= u16::MAX,
                forall|j: int|
                    0 <= j < k ==> (#[trigger] tx_lists@[j])@ == eligible(
                        cores@,
                        ports@[j].port.socket,
                        tx_affinity,
                    ) && tx_lists@[j]@.len() <= u16::MAX,
            decreases ports.len() - k,
        {
            let p = &ports[k];
            proof {
                assert(ports@[k as int] == *p);
                lemma_feasible_port(cores@, *p, rx_affinity, tx_affinity);
                lemma_socket_map_lookup(cores@, p.port.socket);
                lemma_eligible_in(cores@, p.port.socket, rx_affinity);
                lemma_eligible_in(cores@, p.port.socket, tx_affinity);
            }
            let (rx_lcores, tx_lcores) = extract_rxtx_lcores(&p.port, &map, rx_affinity, tx_affinity);
            rx_lists.push(rx_lcores);
            tx_lists.push(tx_lcores);
            k += 1;
        }
        let mut out: Vec<(LCoreId, Vec<RxQ>, Vec<TxQ>)> = Vec::new();
        let mut i: usize = 0;
        while i < cores.len()
            invariant
                i <= cores.len(),
                rx_lists.len() == ports.len(),
                tx_lists.len() == ports.len(),
                forall|j: int|
                    0 <= j < ports.len() ==> (#[trigger] rx_lists@[j])@ == eligible(
                        cores@,
                        ports@[j].port.socket,
                        rx_affinity,
                    ) && rx_lists@[j]@.len() <= u16::MAX,
                forall|j: int|
                    0 <= j < ports.len() ==> (#[trigger] tx_lists@[j])@ == eligible(
                        cores@,
                        ports@[j].port.socket,
                        tx_affinity,
                    ) && tx_lists@[j]@.len() <= u16::MAX,
                assignment_view(out@) == assignment(
                    cores@,
                    i as nat,
                    ports@,
                    rx_affinity,
                    tx_affinity,
                ),
            decreases cores.len() - i,
        {
            let core = cores[i].id;
            let rxqs = rx_queues_for(core, ports, &rx_lists, Ghost(cores@), Ghost(rx_affinity));
            let txqs = tx_queues_for(core, ports, &tx_lists, Ghost(cores@), Ghost(tx_affinity));
            let ghost before = out@;
            if rxqs.len() > 0 || txqs.len() > 0 {
                let ghost entry = (core, rxqs@, txqs@);
                out.push((core, rxqs, txqs));
                proof {
                    assert(assignment_view(out@) =~= assignment_view(before).push(entry));
                }
            }
            i += 1;
        }
        self.setup_initialized = true;
        Ok(out)
    }
}

/// Of any two calls of `setup` on one handle, one after the other, the
/// second is refused with `EALREADY` and changes nothing, whatever the
/// cores, the ports and the policies of either call.
pub proof fn law_setup_at_most_once(
    initialized: bool,
    cores1: Seq<CoreInfo>,
    ports1: Seq<PortInfo>,
    rx1: Affinity,
    tx1: Affinity,
    cores2: Seq<CoreInfo>,
    ports2: Seq<PortInfo>,
    rx2: Affinity,
    tx2: Affinity,
)
    ensures
        ({
            let first = setup_step(initialized, cores1, ports1, rx1, tx1);
            let second = setup_step(first.0, cores2, ports2, rx2, tx2);
            &&& second.1 == Err::<Seq<(LCoreId, Seq<RxQ>, Seq<TxQ>)>, ErrorCode>(
                ErrorCode(EALREADY),
            )
            &&& second.0 == first.0
            &&& first.1.is_ok() <==> !initialized
        }),
{
}

/// What to make of the status that runtime teardown returned.
#[derive(Debug, Clone, Copy, PartialEq, Eq, Structural)]
pub enum CleanupOutcome {
    /// The runtime is torn down.
    Done,
    /// Teardown is not implemented: worth a warning, nothing more.
    NotSupported,
    /// Teardown failed: an invariant is broken.
    Fatal,
}

/// What to make of the status `ret` that runtime teardown returned: zero is
/// success, `-ENOTSUP` a condition to warn about, anything else fatal. Where
/// both readings apply, the warning wins.
pub fn cleanup_outcome(ret: i32) -> (r: CleanupOutcome)
    ensures
        ret == -ENOTSUP ==> r == CleanupOutcome::NotSupported,
        ret == 0 ==> r == CleanupOutcome::Done,
        ret != 0 && ret != -ENOTSUP ==> r == CleanupOutcome::Fatal,
{
    if ret == -ENOTSUP {
        CleanupOutcome::NotSupported
    } else if ret == 0 {
        CleanupOutcome::Done
    } else {
        CleanupOutcome::Fatal
    }
}

} // verus!
