//! Signals: actions, masks and delivery.

use edge_libos::errno::{EFAULT, EINVAL, EINTR};
use edge_libos::fd::FdTable;
use edge_libos::sys::epoll::{epoll_create1, epoll_wait, epoll_woken, EpollStep};
use edge_libos::sys::file::{close, pipe2};
use edge_libos::sys::futex::{futex, futex_woken, FutexStep, FutexTable};
use edge_libos::sys::poll::{poll, poll_woken, PollStep, WaitEvent};
use edge_libos::sys::signal::{
    apply_terminate_if_needed, deliverable, handle_signal_arm, rt_sigaction, rt_sigprocmask, rt_sigreturn,
    sigaltstack, DeliveryAction, SigAction, SignalOutcome, SignalState, SIGCHLD, SIGKILL, SIGWINCH, SIG_IGN,
};

const SIGUSR1: i32 = 10;

fn action(handler: u64) -> SigAction {
    SigAction { handler, flags: 0, restorer: 0, mask: 0 }
}

fn page() -> Vec<u8> {
    vec![0u8; 65536]
}

#[test]
fn deliverable_empty_queue_is_ignore() {
    let s = SignalState::new();
    let mut pending: Vec<i32> = Vec::new();
    assert_eq!(deliverable(&s, &mut pending), DeliveryAction::Ignore);
}

#[test]
fn deliverable_sigterm_default_terminates() {
    let s = SignalState::new();
    let mut pending = vec![15];
    assert_eq!(deliverable(&s, &mut pending), DeliveryAction::Terminate(15));
    assert!(pending.is_empty());
}

#[test]
fn deliverable_sigkill_bypasses_mask_and_disposition() {
    let mut s = SignalState::new();
    s.mask = u64::MAX;
    s.actions.insert(SIGKILL, action(SIG_IGN));
    let mut pending = vec![SIGKILL];
    assert_eq!(deliverable(&s, &mut pending), DeliveryAction::Terminate(SIGKILL));
}

#[test]
fn deliverable_default_ignore_signals_are_dropped() {
    let s = SignalState::new();
    let mut pending = vec![SIGCHLD, SIGWINCH];
    assert_eq!(deliverable(&s, &mut pending), DeliveryAction::Ignore);
    assert!(pending.is_empty());
}

#[test]
fn deliverable_sig_ign_is_dropped() {
    let mut s = SignalState::new();
    s.actions.insert(15, action(SIG_IGN));
    let mut pending = vec![15];
    assert_eq!(deliverable(&s, &mut pending), DeliveryAction::Ignore);
}

#[test]
fn deliverable_custom_handler_interrupts_without_running() {
    let mut s = SignalState::new();
    s.actions.insert(15, action(0x4000));
    let mut pending = vec![15];
    assert_eq!(deliverable(&s, &mut pending), DeliveryAction::Interrupt);
}

#[test]
fn deliverable_masked_signal_stays_pending() {
    let mut s = SignalState::new();
    s.mask = 1u64 << (15 - 1);
    let mut pending = vec![15];
    assert_eq!(deliverable(&s, &mut pending), DeliveryAction::Ignore);
    assert_eq!(pending, vec![15]);
}

#[test]
fn deliverable_sig_zero_is_probe_not_delivered() {
    let s = SignalState::new();
    let mut pending = vec![0];
    assert_eq!(deliverable(&s, &mut pending), DeliveryAction::Ignore);
    assert!(pending.is_empty());
}

#[test]
fn deliverable_preserves_fifo_after_early_terminate() {
    let mut s = SignalState::new();
    s.mask = 1u64 << (10 - 1);
    let mut pending = vec![10, 15, 12];
    assert_eq!(deliverable(&s, &mut pending), DeliveryAction::Terminate(15));
    assert_eq!(pending, vec![10, 12]);
}

fn put_action(mem: &mut [u8], handler: u32, flags: u32, mask: u64) {
    mem[4096..4100].copy_from_slice(&handler.to_le_bytes());
    mem[4100..4104].copy_from_slice(&flags.to_le_bytes());
    mem[4104..4112].copy_from_slice(&mask.to_le_bytes());
    mem[4124..4128].copy_from_slice(&0u32.to_le_bytes());
}

#[test]
fn sigaction_install_records_handler() {
    let mut s = SignalState::new();
    let mut mem = page();
    put_action(&mut mem, 0xdead_beef, 0x42, 0x1234);
    let ret = rt_sigaction(&mut s, &mut mem, [13, 4096, 0, 8, 0, 0]);
    assert_eq!(ret, 0, "rt_sigaction should return 0");
    let sa = s.actions.get(&13).copied().expect("handler should be recorded for signum 13");
    assert_eq!(sa.handler, 0xdead_beef);
    assert_eq!(sa.flags, 0x42);
    assert_eq!(sa.mask, 0x1234);
}

#[test]
fn sigaction_query_returns_installed() {
    let mut s = SignalState::new();
    let mut mem = page();
    put_action(&mut mem, 0xCAFE_BABE, 0, 0xFFFF);
    rt_sigaction(&mut s, &mut mem, [9, 4096, 0, 8, 0, 0]);
    rt_sigaction(&mut s, &mut mem, [9, 0, 4128, 8, 0, 0]);
    let handler = u32::from_le_bytes(mem[4128..4132].try_into().unwrap());
    assert_eq!(handler, 0xCAFE_BABE, "oldact should reflect the installed handler");
}

#[test]
fn sigaction_rejects_invalid_signum() {
    let mut s = SignalState::new();
    let mut mem = page();
    assert_eq!(rt_sigaction(&mut s, &mut mem, [999, 0, 0, 8, 0, 0]), -EINVAL);
}

#[test]
fn sigprocmask_set_then_query() {
    let mut s = SignalState::new();
    let mut mem = page();
    mem[4096..4104].copy_from_slice(&0xABCDu64.to_le_bytes());
    assert_eq!(rt_sigprocmask(&mut s, &mut mem, [2, 4096, 0, 8, 0, 0]), 0);
    assert_eq!(s.mask, 0xABCD, "kernel must record the new mask");
}

#[test]
fn sigprocmask_rejects_invalid_how() {
    let mut s = SignalState::new();
    let mut mem = page();
    mem[4096..4104].copy_from_slice(&1u64.to_le_bytes());
    assert_eq!(rt_sigprocmask(&mut s, &mut mem, [99, 4096, 0, 8, 0, 0]), -EINVAL);
}

/// A pending SIGUSR1 that wakes a waiting call.
fn armed() -> WaitEvent {
    let s = SignalState::new();
    let mut pending = vec![SIGUSR1];
    let mut exit_code = None;
    match handle_signal_arm(&s, &mut pending, &mut exit_code) {
        SignalOutcome::Interrupted => WaitEvent::Interrupted,
        SignalOutcome::Nothing => WaitEvent::Woken,
    }
}

#[test]
fn epoll_wait_empty_returns_eintr_when_signal_pre_armed() {
    let mut fds = FdTable::empty();
    let mut mem = page();
    let epfd = epoll_create1(&mut fds, [0; 6]);
    let wait = match epoll_wait(&fds, &mut mem, [epfd, 4096, 1, 2000, 0, 0]) {
        EpollStep::Wait(w) => w,
        EpollStep::Done(r) => panic!("expected a wait, got {r}"),
    };
    let ret = epoll_woken(&fds, &mut mem, &wait, armed());
    assert_eq!(ret, -EINTR, "epoll_wait must return -EINTR when SIGUSR1 is pending");
}

#[test]
fn poll_long_timeout_returns_eintr_when_signal_pre_armed() {
    let mut fds = FdTable::empty();
    let mut mem = page();
    assert_eq!(pipe2(&mut fds, &mut mem, [4096, 0, 0, 0, 0, 0]), 0);
    let rd: [u8; 4] = mem[4096..4100].try_into().unwrap();
    let wr = u32::from_le_bytes(mem[4100..4104].try_into().unwrap());
    mem[8192..8196].copy_from_slice(&rd);
    mem[8196..8200].copy_from_slice(&1i32.to_le_bytes());
    assert_eq!(close(&mut fds, [wr as i64, 0, 0, 0, 0, 0]), 0);
    let wait = match poll(&fds, &mut mem, [8192, 1, 2000, 0, 0, 0]) {
        PollStep::Wait(w) => w,
        PollStep::Done(r) => panic!("expected a wait, got {r}"),
    };
    match poll_woken(&fds, &mut mem, wait, armed()) {
        PollStep::Done(ret) => assert_eq!(ret, -EINTR, "poll must return -EINTR when SIGUSR1 is pending"),
        PollStep::Wait(_) => panic!("poll must return"),
    }
}

#[test]
fn futex_wait_returns_eintr_when_signal_pre_armed() {
    let mut t = FutexTable::default();
    let mem = page();
    let uaddr = match futex(&mut t, &mem, [4096, 0, 0, 0, 0, 0]) {
        FutexStep::Wait { uaddr, timeout, .. } => {
            assert_eq!(timeout, None);
            uaddr
        }
        other => panic!("expected a wait, got {other:?}"),
    };
    let ret = futex_woken(&mut t, uaddr, armed());
    assert_eq!(ret, -EINTR, "futex_wait must return -EINTR when SIGUSR1 is pending");
}

#[test]
fn a_blocked_signal_does_not_interrupt() {
    let mut s = SignalState::new();
    s.mask = 1u64 << (SIGUSR1 - 1);
    let mut pending = vec![SIGUSR1];
    let mut exit_code = None;
    assert_eq!(handle_signal_arm(&s, &mut pending, &mut exit_code), SignalOutcome::Nothing);
    assert_eq!(pending, vec![SIGUSR1]);
}

#[test]
fn blocking_and_unblocking_cancel_out() {
    let mut s = SignalState::new();
    let mut mem = page();
    s.mask = 0x10;
    mem[4096..4104].copy_from_slice(&0x0fu64.to_le_bytes());
    assert_eq!(rt_sigprocmask(&mut s, &mut mem, [0, 4096, 512, 8, 0, 0]), 0);
    assert_eq!(s.mask, 0x1f);
    assert_eq!(mem[512], 0x10, "the mask before is told");
    assert_eq!(rt_sigprocmask(&mut s, &mut mem, [1, 4096, 0, 8, 0, 0]), 0);
    assert_eq!(s.mask, 0x10);
    assert_eq!(rt_sigprocmask(&mut s, &mut mem, [1, 65530, 0, 8, 0, 0]), -EFAULT);
}

#[test]
fn the_alternate_stack_is_told_as_it_was_set() {
    let mut s = SignalState::new();
    let mut mem = page();
    for i in 0..24usize {
        mem[1024 + i] = i as u8 + 1;
    }
    assert_eq!(sigaltstack(&mut s, &mut mem, [1024, 0, 0, 0, 0, 0]), 0);
    assert_eq!(sigaltstack(&mut s, &mut mem, [0, 2048, 0, 0, 0, 0]), 0);
    assert_eq!(mem[1024..1048].to_vec(), mem[2048..2072].to_vec());
    assert_eq!(sigaltstack(&mut s, &mut mem, [65530, 0, 0, 0, 0, 0]), -EFAULT);
}

#[test]
fn termination_leaves_the_exit_code() {
    let mut exit_code = Some(3);
    apply_terminate_if_needed(&mut exit_code, &Some(DeliveryAction::Terminate(15)));
    assert_eq!(exit_code, Some(3));
    assert!(rt_sigreturn() <= 0);
}
