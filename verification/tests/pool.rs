use melwalletd::pool::{ConnPool, DEFAULT_POOL_SIZE};

#[test]
fn pool_hands_each_handle_to_one_holder() {
    assert_eq!(DEFAULT_POOL_SIZE, 64);
    let mut pool = ConnPool::open(3);
    let a = pool.get_conn().unwrap();
    let b = pool.get_conn().unwrap();
    let c = pool.get_conn().unwrap();
    assert_eq!((a.index(), b.index(), c.index()), (0, 1, 2));
    assert!(pool.get_conn().is_none());
    pool.release(b);
    let again = pool.get_conn().unwrap();
    assert_eq!(again.index(), 1);
    assert!(pool.get_conn().is_none());
    pool.release(a);
    pool.release(c);
    assert_eq!(pool.get_conn().unwrap().index(), 0);
    assert_eq!(pool.get_conn().unwrap().index(), 2);
}

#[test]
fn empty_pool_has_no_handle() {
    let mut pool = ConnPool::open(0);
    assert!(pool.get_conn().is_none());
}
