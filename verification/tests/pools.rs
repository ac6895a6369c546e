use dpdk::eal::Eal;
use dpdk::ids::SocketId;
use dpdk::mpool::{check_name, socket_arg_of, MPool, SOCKET_ID_ANY};
use dpdk::naming::{push_decimal, rx_pool_name_of};
use dpdk::port::Port;
use dpdk::queue::RxQ;

fn fresh() -> Eal {
    let mut args: Vec<String> = Vec::new();
    Eal::new(&mut args, 0).unwrap()
}

#[test]
fn pool_name_embeds_port_and_queue() {
    assert_eq!(rx_pool_name_of(0, 0), "rxq_be0dd4ab_0_0");
    assert_eq!(rx_pool_name_of(3, 12), "rxq_be0dd4ab_3_12");
    assert_eq!(rx_pool_name_of(65535, 65535), "rxq_be0dd4ab_65535_65535");
    assert_eq!(rx_pool_name_of(10, 907), "rxq_be0dd4ab_10_907");
}

#[test]
fn pool_names_of_neighbours_differ() {
    // "1" + "_" + "23" and "12" + "_" + "3" must not fall together.
    assert_ne!(rx_pool_name_of(1, 23), rx_pool_name_of(12, 3));
    assert_ne!(rx_pool_name_of(1, 1), rx_pool_name_of(1, 11));
    assert_ne!(rx_pool_name_of(11, 1), rx_pool_name_of(1, 11));
}

#[test]
fn decimal_is_appended() {
    let mut text = String::from("n=");
    push_decimal(&mut text, 0);
    assert_eq!(text, "n=0");
    push_decimal(&mut text, 1234567890);
    assert_eq!(text, "n=01234567890");
    let mut other = String::new();
    push_decimal(&mut other, 10);
    assert_eq!(other, "10");
    push_decimal(&mut other, 9);
    assert_eq!(other, "109");
}

#[test]
fn queue_pool_has_default_sizes() {
    let eal = fresh();
    let q = RxQ { queue_id: 7, port: Port { port_id: 2, socket: SocketId::new(1) } };
    assert_eq!(q.pool_name(), "rxq_be0dd4ab_2_7");
    let pool = q.mpool(&eal);
    assert_eq!(pool.name, "rxq_be0dd4ab_2_7");
    assert_eq!(pool.n, 1024);
    assert_eq!(pool.cache_size, 0);
    assert_eq!(pool.priv_size, 0);
    assert_eq!(pool.data_room_size, 2048);
    assert_eq!(pool.socket_id, 1);
}

#[test]
fn pool_keeps_its_arguments() {
    let eal = fresh();
    assert!(MPool::admits("pkts", 4096, 8, 2176));
    let pool = MPool::new(&eal, "pkts", 4096, 32, 8, 2176, None);
    assert_eq!(pool.name, "pkts");
    assert_eq!(pool.n, 4096);
    assert_eq!(pool.cache_size, 32);
    assert_eq!(pool.priv_size, 8);
    assert_eq!(pool.data_room_size, 2176);
    assert_eq!(pool.socket_id, SOCKET_ID_ANY);
    assert_eq!(pool.socket_id, -1);
    let on = MPool::new(&eal, "on3", 1, 0, 0, 65535, Some(SocketId::new(3)));
    assert_eq!(on.socket_id, 3);
    assert_eq!(on.data_room_size, 65535);
}

#[test]
fn cache_size_is_cut_to_32_bits() {
    let eal = fresh();
    let wide = 0x1_0000_0005u64;
    if let Ok(cache) = usize::try_from(wide) {
        let pool = MPool::new(&eal, "wide", 16, cache, 0, 2048, None);
        assert_eq!(pool.cache_size, 5);
    }
    let pool = MPool::new(&eal, "top", 16, 0xffff_ffff, 0, 2048, None);
    assert_eq!(pool.cache_size, 0xffff_ffff);
}

#[test]
fn pool_arguments_are_checked() {
    assert!(check_name("rxq_0"));
    assert!(check_name(""));
    assert!(!check_name("a\0b"));
    assert!(!check_name("\0"));
    assert!(check_name("päckchen"));
    assert!(!MPool::admits("a\0", 16, 0, 2048));
    assert!(!MPool::admits("a", 16, 65536, 2048));
    assert!(!MPool::admits("a", 16, 0, 65536));
    assert!(MPool::admits("a", 16, 65535, 65535));
    if let Ok(n) = usize::try_from(0x1_0000_0000u64) {
        assert!(!MPool::admits("a", n, 0, 2048));
        assert!(MPool::admits("a", n - 1, 0, 2048));
    }
}

#[test]
fn socket_argument() {
    assert_eq!(socket_arg_of(None), -1);
    assert_eq!(socket_arg_of(Some(SocketId::new(0))), 0);
    assert_eq!(socket_arg_of(Some(SocketId::new(0x7fff_ffff))), i32::MAX);
    assert_eq!(socket_arg_of(Some(SocketId::new(0x8000_0000))), i32::MIN);
    assert_eq!(socket_arg_of(Some(SocketId::new(0xffff_ffff))), -1);
}

#[test]
fn exhausted_pool_gives_no_buffer() {
    let eal = fresh();
    let pool = MPool::new(&eal, "tiny", 1, 0, 0, 2048, None);
    // The allocator answers an exhausted pool with null.
    assert!(pool.allocate_one(0).is_none());
    let pkt = pool.allocate_one(0x7f00_1000).unwrap();
    assert_eq!(pkt.addr(), 0x7f00_1000);
    assert!(pool.allocate_one(0).is_none());
}

#[test]
fn pool_that_was_not_made_gives_no_handle() {
    let eal = fresh();
    let pool = MPool::new(&eal, "twice", 16, 0, 0, 2048, None);
    // The allocator answers with null where it cannot make the pool.
    assert!(pool.created(0).is_none());
    let native = pool.created(0x7f00_2000).unwrap();
    assert_eq!(native.addr(), 0x7f00_2000);
    assert_eq!(pool.created(usize::MAX).unwrap().addr(), usize::MAX);
}
