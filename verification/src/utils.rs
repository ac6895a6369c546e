//! Small helpers around bringing the runtime up.

use vstd::prelude::*;
use crate::topology::{lemma_position, position};
use vstd::utf8::encode_utf8;

verus! {

/// Whether `bytes` holds no NUL byte, so that it can be passed on as a
/// NUL-terminated string.
pub open spec fn nul_free(bytes: Seq<u8>) -> bool {
    forall|i: int| 0 <= i < bytes.len() ==> bytes[i] != 0
}

/// Whether no argument of `args` holds a NUL byte.
pub open spec fn args_nul_free(args: Seq<String>) -> bool {
    forall|k: int| 0 <= k < args.len() ==> nul_free(encode_utf8((#[trigger] args[k])@))
}

/// `bytes` followed by the terminating NUL.
pub open spec fn terminated(bytes: Seq<u8>) -> Seq<u8> {
    bytes.push(0u8)
}

/// Whether `arg` holds no NUL byte.
pub fn is_nul_free(arg: &str) -> (r: bool)
    ensures
        r == nul_free(encode_utf8(arg@)),
{
    let bytes = arg.as_bytes_vec();
    let mut i: usize = 0;
    while i < bytes.len()
        invariant
            i <= bytes.len(),
            bytes@ == encode_utf8(arg@),
            forall|k: int| 0 <= k < i ==> bytes@[k] != 0,
        decreases bytes.len() - i,
    {
        if bytes[i] == 0 {
            return false;
        }
        i += 1;
    }
    true
}

/// Whether no argument of `args` holds a NUL byte.
pub fn check_args(args: &Vec<String>) -> (r: bool)
    ensures
        r == args_nul_free(args@),
{
    let mut k: usize = 0;
    while k < args.len()
        invariant
            k <= args.len(),
            forall|j: int| 0 <= j < k ==> nul_free(encode_utf8((#[trigger] args@[j])@)),
        decreases args.len() - k,
    {
        if !is_nul_free(args[k].as_str()) {
            return false;
        }
        k += 1;
    }
    true
}

/// The arguments as NUL-terminated byte strings, with their number.
pub fn args_to_c_array(args: &Vec<String>) -> (r: (Vec<Vec<u8>>, usize))
    requires
        args_nul_free(args@),
    ensures
        r.1 == args.len(),
        r.0.len() == args.len(),
        forall|k: int|
            0 <= k < args.len() ==> (#[trigger] r.0@[k])@ == terminated(encode_utf8(args@[k]@)),
{
    let mut c_args: Vec<Vec<u8>> = Vec::new();
    let mut k: usize = 0;
    while k < args.len()
        invariant
            k <= args.len(),
            c_args.len() == k,
            forall|j: int|
                0 <= j < k ==> (#[trigger] c_args@[j])@ == terminated(encode_utf8(args@[j]@)),
        decreases args.len() - k,
    {
        let mut bytes = args[k].as_str().as_bytes_vec();
        bytes.push(0u8);
        c_args.push(bytes);
        k += 1;
    }
    let len = c_args.len();
    (c_args, len)
}

/// Reads the status that the runtime's initializer returned: the number of
/// arguments it consumed, or, negative, its error.
pub fn eal_init(ret: i32) -> (r: Result<i32, i32>)
    ensures
        ret < 0 ==> r == Err::<i32, i32>(ret),
        ret >= 0 ==> r == Ok::<i32, i32>(ret),
{
    if ret < 0 {
        Err(ret)
    } else {
        Ok(ret)
    }
}

/// The number of cores that are looked at: the number of core slots, but
/// one where there is no slot, because core 0 is looked at before the
/// bound is.
pub open spec fn lcore_cap(max_lcore: u32) -> int {
    if max_lcore == 0 {
        1
    } else {
        max_lcore as int
    }
}

/// How many cores `get_lcores` lists: the index of the first core whose
/// state is zero, bounded by the number of cores looked at. A core that
/// `states` does not reach counts as idle.
pub open spec fn busy_lcores(states: Seq<i32>, max_lcore: u32) -> int {
    let first_idle = position(states, 0i32);
    if first_idle <= lcore_cap(max_lcore) {
        first_idle
    } else {
        lcore_cap(max_lcore)
    }
}

/// The cores from core 0 on whose state is not zero, up to the first whose
/// state is zero, bounded by the number of core slots. `states` holds the
/// state of each core, from core 0 on.
pub fn get_lcores(states: &Vec<i32>, max_lcore: u32) -> (lcores: Vec<u32>)
    ensures
        lcores.len() == busy_lcores(states@, max_lcore),
        forall|i: int| 0 <= i < lcores.len() ==> lcores@[i] == i && states@[i] != 0,
        lcores.len() < states.len() && lcores.len() < lcore_cap(max_lcore) ==> states@[lcores.len() as int]
            == 0,
{
    let cap: u32 = if max_lcore == 0 {
        1
    } else {
        max_lcore
    };
    let mut lcores: Vec<u32> = Vec::new();
    let mut lcore_id: u32 = 0;
    while lcore_id < cap && (lcore_id as usize) < states.len() && states[lcore_id as usize] != 0
        invariant
            cap == lcore_cap(max_lcore),
            lcore_id <= cap,
            lcore_id <= states.len(),
            lcores.len() == lcore_id,
            forall|i: int| 0 <= i < lcores.len() ==> lcores@[i] == i && states@[i] != 0,
        decreases cap - lcore_id,
    {
        lcores.push(lcore_id);
        lcore_id += 1;
    }
    proof {
        lemma_position(states@, 0i32);
        let first_idle = position(states@, 0i32);
        if first_idle < lcore_id {
            assert(states@[first_idle] != 0);
        }
    }
    lcores
}

/// The core whose state is to be asked next, given the states of the cores
/// before it: the next core, as long as every core asked was busy and a
/// core is left to look at. `None` when `states` is enough for
/// `get_lcores`.
pub fn next_lcore(states: &Vec<i32>, max_lcore: u32) -> (next: Option<u32>)
    ensures
        next == if busy_lcores(states@, max_lcore) == states.len() && states.len() < lcore_cap(
            max_lcore,
        ) {
            Some(states.len() as u32)
        } else {
            None
        },
{
    let cap: u32 = if max_lcore == 0 {
        1
    } else {
        max_lcore
    };
    let busy = get_lcores(states, max_lcore);
    if busy.len() == states.len() && states.len() < cap as usize {
        Some(states.len() as u32)
    } else {
        None
    }
}

/// When no core is left to ask, the states of further cores change nothing
/// of what `get_lcores` lists.
pub proof fn law_enough_states(states: Seq<i32>, more: Seq<i32>, max_lcore: u32)
    requires
        !(busy_lcores(states, max_lcore) == states.len() && states.len() < lcore_cap(max_lcore)),
    ensures
        busy_lcores(states + more, max_lcore) == busy_lcores(states, max_lcore),
{
    let all = states + more;
    lemma_position(states, 0i32);
    lemma_position(all, 0i32);
    let short = position(states, 0i32);
    let long = position(all, 0i32);
    if short < states.len() {
        assert(all[short] == 0);
        if long < short {
            assert(states[long] == all[long]);
        }
    } else {
        if long < states.len() {
            assert(states[long] == all[long]);
        }
    }
}

} // verus!
