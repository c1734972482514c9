//! Futexes.

use edge_libos::errno::{EAGAIN, EFAULT, EINVAL, EINTR, ENOSYS, ETIMEDOUT};
use edge_libos::sys::futex::{
    decode_timespec, futex, futex_wait, futex_wake, futex_woken, release_waiter, FutexStep, FutexTable,
};
use edge_libos::sys::poll::WaitEvent;

fn page() -> Vec<u8> {
    vec![0u8; 65536]
}

#[test]
fn futex_table_default_is_empty() {
    let t = FutexTable::default();
    assert!(t.by_addr.is_empty());
}

#[test]
fn futex_wake_empty_addr_returns_zero() {
    let mut t = FutexTable::default();
    let ret = futex(&mut t, &page(), [4096, 1, 1, 0, 0, 0]);
    assert_eq!(ret, FutexStep::Done(0), "FUTEX_WAKE on never-waited addr must return 0");
}

#[test]
fn futex_wait_value_mismatch_returns_eagain() {
    let mut t = FutexTable::default();
    let mut mem = page();
    mem[4096] = 1;
    let ret = futex(&mut t, &mem, [4096, 0, 99, 0, 0, 0]);
    assert_eq!(ret, FutexStep::Done(-EAGAIN), "FUTEX_WAIT with mismatched value must return -EAGAIN");
}

#[test]
fn futex_wait_unrecognized_op_returns_enosys() {
    let mut t = FutexTable::default();
    let ret = futex(&mut t, &page(), [4096, 2, 0, 0, 0, 0]);
    assert_eq!(ret, FutexStep::Done(-ENOSYS), "FUTEX_FD must return -ENOSYS");
}

#[test]
fn futex_wait_sentinel_addr_returns_einval() {
    let mut t = FutexTable::default();
    let ret = futex(&mut t, &page(), [4294967295, 0, 0, 0, 0, 0]);
    assert_eq!(ret, FutexStep::Done(-EINVAL), "0xFFFF_FFFF must return -EINVAL");
}

#[test]
fn futex_wait_out_of_memory_returns_efault() {
    let mut t = FutexTable::default();
    let ret = futex(&mut t, &page(), [100000000, 0, 0, 0, 0, 0]);
    assert_eq!(ret, FutexStep::Done(-EFAULT), "out-of-memory uaddr must return -EFAULT");
}

#[test]
fn futex_private_flag_is_accepted_noop() {
    let mut t = FutexTable::default();
    let ret = futex(&mut t, &page(), [4096, 1, 1, 0, 0, 128]);
    assert_eq!(ret, FutexStep::Done(0), "FUTEX_PRIVATE_FLAG must be accepted as no-op");
    assert_eq!(futex(&mut t, &page(), [4096, 1 | 0x80, 1, 0, 0, 0]), FutexStep::Done(0));
}

#[test]
fn futex_wait_immediate_timeout_returns_etimedout() {
    let mut t = FutexTable::default();
    let ret = match futex(&mut t, &page(), [4096, 0, 0, 8192, 0, 0]) {
        FutexStep::Wait { uaddr, timeout, .. } => {
            assert_eq!(timeout, Some(0));
            futex_woken(&mut t, uaddr, WaitEvent::TimedOut)
        }
        FutexStep::Done(r) => r,
        other => panic!("unexpected {other:?}"),
    };
    assert_eq!(ret, -ETIMEDOUT, "FUTEX_WAIT with timespec {{0,0}} must return -ETIMEDOUT");
}

#[test]
fn a_wake_finds_the_waiters() {
    let mut t = FutexTable::default();
    let mem = page();
    let first = futex_wait(&mut t, &mem, 4096, 0, 0);
    let second = futex_wait(&mut t, &mem, 4096, 0, 0);
    let other = futex_wait(&mut t, &mem, 8192, 0, 0);
    let notify = match (first, second) {
        (FutexStep::Wait { notify: a, .. }, FutexStep::Wait { notify: b, .. }) => {
            assert_eq!(a, b, "one address, one queue");
            a
        }
        other => panic!("unexpected {other:?}"),
    };
    assert!(matches!(other, FutexStep::Wait { uaddr: 8192, .. }));
    assert_eq!(t.by_addr.get(&4096).unwrap().waiters, 2);
    assert_eq!(futex_wake(&mut t, 4096, 10), FutexStep::Wake { notify, count: 2 });
    assert_eq!(t.by_addr.get(&8192).unwrap().waiters, 1, "the other address is untouched");
}

#[test]
fn a_woken_waiter_is_counted_once() {
    let mut t = FutexTable::default();
    let mem = page();
    for _ in 0..3 {
        assert!(matches!(futex_wait(&mut t, &mem, 4096, 0, 0), FutexStep::Wait { .. }));
    }
    assert!(matches!(futex_wake(&mut t, 4096, 1), FutexStep::Wake { count: 1, .. }));
    assert_eq!(futex_woken(&mut t, 4096, WaitEvent::Woken), 0);
    assert!(matches!(futex_wake(&mut t, 4096, 10), FutexStep::Wake { count: 2, .. }));
    assert_eq!(futex_woken(&mut t, 4096, WaitEvent::Woken), 0);
    assert_eq!(futex_woken(&mut t, 4096, WaitEvent::Woken), 0);
    assert_eq!(futex_wake(&mut t, 4096, 10), FutexStep::Done(0));
}

#[test]
fn a_wake_of_none_wakes_none() {
    let mut t = FutexTable::default();
    let mem = page();
    let _ = futex_wait(&mut t, &mem, 4096, 0, 0);
    assert!(matches!(futex_wake(&mut t, 4096, 0), FutexStep::Wake { count: 0, .. }));
    assert!(matches!(futex_wake(&mut t, 4096, -1), FutexStep::Wake { count: 0, .. }));
}

#[test]
fn an_abandoned_wait_leaves_no_waiter() {
    let mut t = FutexTable::default();
    let mem = page();
    let _ = futex_wait(&mut t, &mem, 4096, 0, 0);
    assert_eq!(futex_woken(&mut t, 4096, WaitEvent::Interrupted), -EINTR);
    assert!(t.by_addr.get(&4096).map(|e| e.waiters).unwrap_or(0) == 0);
    let _ = futex_wait(&mut t, &mem, 4096, 0, 0);
    assert_eq!(futex_woken(&mut t, 4096, WaitEvent::Woken), 0);
    release_waiter(&mut t, 4096);
    assert!(t.by_addr.get(&4096).map(|e| e.waiters).unwrap_or(0) == 0);
}

#[test]
fn a_timespec_is_read_in_nanoseconds() {
    let mut mem = page();
    mem[64..72].copy_from_slice(&2i64.to_le_bytes());
    mem[72..80].copy_from_slice(&5i64.to_le_bytes());
    assert_eq!(decode_timespec(&mem, 64), Ok(2_000_000_005));
    assert_eq!(decode_timespec(&mem, 65530), Err(-EFAULT));
}
