use rhfs_core::pool::{Acquire, Pool, Release};

#[test]
fn capacity_one_hands_the_same_instance_to_the_waiter() {
    let mut pool: Pool<String> = Pool::new(1, 0);
    let first = match pool.acquire() {
        Acquire::Create(slot) => slot.fill("env".to_string()),
        _ => panic!("expected a new instance"),
    };
    assert_eq!(first.number(), 0);
    assert!(matches!(pool.acquire(), Acquire::Wait));
    assert_eq!(pool.waiting(), 1);
    match pool.release(first) {
        Release::Handoff(v) => {
            assert_eq!(v.number(), 0);
            assert_eq!(v.value(), "env");
        },
        Release::Idle => panic!("the waiter should get the instance"),
    }
    assert_eq!(pool.waiting(), 0);
    assert_eq!(pool.count(), 1);
    assert_eq!(pool.lent(), 1);
    assert_eq!(pool.idle_len(), 0);
}

#[test]
fn capacity_n_builds_n_then_waits() {
    let n: usize = 3;
    let mut pool: Pool<usize> = Pool::new(n, 10);
    let mut held = Vec::new();
    for k in 0..n {
        match pool.acquire() {
            Acquire::Create(slot) => {
                assert_eq!(slot.number(), 10 + k);
                held.push(slot.fill(k));
            },
            _ => panic!("expected a new instance"),
        }
    }
    assert!(matches!(pool.acquire(), Acquire::Wait));
    assert!(matches!(pool.acquire(), Acquire::Wait));
    assert_eq!(pool.count(), n);
    let v = held.pop().unwrap();
    assert!(matches!(pool.release(v), Release::Handoff(_)));
    assert_eq!(pool.waiting(), 1);
    pool.cancel_wait();
    assert_eq!(pool.waiting(), 0);
    let v = held.pop().unwrap();
    assert!(matches!(pool.release(v), Release::Idle));
    assert_eq!(pool.idle_len(), 1);
    match pool.acquire() {
        Acquire::Ready(v) => assert_eq!(v.number(), 11),
        _ => panic!("expected the idle instance"),
    }
    assert_eq!(pool.count(), n);
    assert_eq!(pool.capacity(), n);
    assert_eq!(pool.idle_len() + pool.lent(), pool.count());
}

#[test]
fn idle_instances_come_back_in_release_order() {
    let mut pool: Pool<u8> = Pool::new(2, 0);
    let a = match pool.acquire() { Acquire::Create(s) => s.fill(1), _ => panic!() };
    let b = match pool.acquire() { Acquire::Create(s) => s.fill(2), _ => panic!() };
    pool.release(b);
    pool.release(a);
    match pool.acquire() { Acquire::Ready(v) => assert_eq!(*v.value(), 2), _ => panic!() }
    match pool.acquire() { Acquire::Ready(v) => assert_eq!(*v.value(), 1), _ => panic!() }
}
