use dpdk::eal::Eal;
use dpdk::ids::{CodeOutOfRange, EalError, ErrorCode, LCoreId, SocketId};
use dpdk::utils::{args_to_c_array, check_args, eal_init, get_lcores, is_nul_free, next_lcore};

fn args(v: &[&str]) -> Vec<String> {
    v.iter().map(|s| s.to_string()).collect()
}

#[test]
fn consumed_arguments_are_removed() {
    let mut a = args(&["prog", "-c", "ff", "--", "rest", "more"]);
    let eal = Eal::new(&mut a, 4).unwrap();
    assert!(!eal.is_initialized());
    assert_eq!(a, args(&["rest", "more"]));
    let mut all = args(&["prog", "-c"]);
    assert!(Eal::new(&mut all, 2).is_ok());
    assert!(all.is_empty());
    let mut none = args(&["prog"]);
    assert!(Eal::new(&mut none, 0).is_ok());
    assert_eq!(none, args(&["prog"]));
}

#[test]
fn failed_initializer_is_reported() {
    let mut a = args(&["prog", "-c", "zz"]);
    let r = Eal::new(&mut a, -22);
    assert_eq!(r.unwrap_err(), EalError::ErrorCode { code: -22 });
    assert_eq!(a, args(&["prog", "-c", "zz"]));
    let mut empty: Vec<String> = Vec::new();
    assert_eq!(Eal::new(&mut empty, -1).unwrap_err(), EalError::ErrorCode { code: -1 });
}

#[test]
fn identifiers_convert() {
    let core: u32 = LCoreId::new(7).into();
    assert_eq!(core, 7);
    let socket: u32 = SocketId::new(3).into();
    assert_eq!(socket, 3);
    let code: u8 = ErrorCode::from(114u8).into();
    assert_eq!(code, 114);
    assert!(LCoreId::new(1) < LCoreId::new(2));
}

#[test]
fn identifiers_are_ordered_by_number() {
    assert!(LCoreId::new(1) < LCoreId::new(2));
    assert!(!(LCoreId::new(2) < LCoreId::new(2)));
    assert!(LCoreId::new(2) <= LCoreId::new(2));
    assert!(LCoreId::new(u32::MAX) > LCoreId::new(0));
    assert!(SocketId::new(0) < SocketId::new(1));
    assert!(SocketId::new(9) >= SocketId::new(9));
    assert!(ErrorCode(95) < ErrorCode(114));
    assert_eq!(LCoreId::new(3).partial_cmp(&LCoreId::new(3)), Some(std::cmp::Ordering::Equal));
    assert_eq!(LCoreId::new(3).cmp(&LCoreId::new(4)), std::cmp::Ordering::Less);
    let mut ids = vec![LCoreId::new(5), LCoreId::new(1), LCoreId::new(3)];
    ids.sort();
    assert_eq!(ids, vec![LCoreId::new(1), LCoreId::new(3), LCoreId::new(5)]);
}

#[test]
fn status_codes_convert() {
    assert_eq!(ErrorCode::try_from(114u32), Ok(ErrorCode(114)));
    assert_eq!(ErrorCode::try_from(255u32), Ok(ErrorCode(255)));
    assert_eq!(ErrorCode::try_from(256u32), Err(CodeOutOfRange));
    assert_eq!(ErrorCode::try_from(-114i32), Ok(ErrorCode(114)));
    assert_eq!(ErrorCode::try_from(0i32), Ok(ErrorCode(0)));
    assert_eq!(ErrorCode::try_from(-255i32), Ok(ErrorCode(255)));
    assert_eq!(ErrorCode::try_from(-256i32), Err(CodeOutOfRange));
    assert_eq!(ErrorCode::try_from(1i32), Err(CodeOutOfRange));
    assert_eq!(ErrorCode::try_from(i32::MIN), Err(CodeOutOfRange));
}

#[test]
fn initializer_status_is_read() {
    assert_eq!(eal_init(3), Ok(3));
    assert_eq!(eal_init(0), Ok(0));
    assert_eq!(eal_init(-1), Err(-1));
    assert_eq!(eal_init(i32::MIN), Err(i32::MIN));
}

#[test]
fn arguments_become_terminated_bytes() {
    let a = args(&["-c", "", "ü"]);
    assert!(check_args(&a));
    let (bytes, n) = args_to_c_array(&a);
    assert_eq!(n, 3);
    assert_eq!(bytes, vec![vec![b'-', b'c', 0], vec![0], vec![0xc3, 0xbc, 0]]);
    let (none, n) = args_to_c_array(&Vec::new());
    assert_eq!(n, 0);
    assert!(none.is_empty());
}

#[test]
fn nul_in_argument_is_found() {
    assert!(is_nul_free("abc"));
    assert!(is_nul_free(""));
    assert!(!is_nul_free("a\0c"));
    assert!(!check_args(&args(&["ok", "no\0"])));
    assert!(check_args(&Vec::new()));
}

#[test]
fn busy_cores_are_listed_up_to_the_first_idle() {
    assert_eq!(get_lcores(&vec![1, 2, 1, 0, 1], 128), vec![0, 1, 2]);
    assert_eq!(get_lcores(&vec![0, 1, 1], 128), Vec::<u32>::new());
    assert_eq!(get_lcores(&vec![1, 1, 1], 128), vec![0, 1, 2]);
    assert_eq!(get_lcores(&Vec::new(), 128), Vec::<u32>::new());
    assert_eq!(get_lcores(&vec![-1, 5], 128), vec![0, 1]);
}

#[test]
fn busy_cores_stop_at_the_maximum() {
    assert_eq!(get_lcores(&vec![1, 1, 1, 1], 2), vec![0, 1]);
    assert_eq!(get_lcores(&vec![1, 1, 1, 1], 4), vec![0, 1, 2, 3]);
    assert_eq!(get_lcores(&vec![1, 1, 1, 1], 1), vec![0]);
    // Core 0 is looked at before the maximum is.
    assert_eq!(get_lcores(&vec![1, 1, 1, 1], 0), vec![0]);
    assert_eq!(get_lcores(&vec![0, 1], 0), Vec::<u32>::new());
}

#[test]
fn cores_are_asked_up_to_the_first_idle() {
    assert_eq!(next_lcore(&Vec::new(), 128), Some(0));
    assert_eq!(next_lcore(&vec![1], 128), Some(1));
    assert_eq!(next_lcore(&vec![1, 2], 128), Some(2));
    assert_eq!(next_lcore(&vec![1, 0], 128), None);
    assert_eq!(next_lcore(&vec![0], 128), None);
    assert_eq!(next_lcore(&vec![1, 1], 2), None);
    assert_eq!(next_lcore(&vec![1], 2), Some(1));
    assert_eq!(next_lcore(&Vec::new(), 0), Some(0));
    assert_eq!(next_lcore(&vec![1], 0), None);
    // Asked like this, the cores 0, 1, 2 are found busy and core 3 idle.
    let answers = [1, 1, 2, 0, 1, 1];
    let mut states: Vec<i32> = Vec::new();
    while let Some(id) = next_lcore(&states, 128) {
        states.push(answers[id as usize]);
    }
    assert_eq!(states, vec![1, 1, 2, 0]);
    assert_eq!(get_lcores(&states, 128), vec![0, 1, 2]);
    assert_eq!(get_lcores(&answers.to_vec(), 128), vec![0, 1, 2]);
}
