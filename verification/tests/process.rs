//! Processes: exit, fork, clone, wait, kill, prctl.

use edge_libos::errno::{ECHILD, EFAULT, EINVAL, EIO, EPERM, ESRCH};
use edge_libos::sys::process::{
    _kill_perm, clone_syscall, exit, exit_group, fork_syscall, kill, prctl, put_child, reap_all_children, sched_getaffinity,
    sched_yield, set_robust_list, set_tid_address, snapshot_done, snapshot_syscall, tgkill, try_reap,
    wait4_child_event, wait4_syscall, wait4_tick, write_wstatus_and_return, ChildExitStatus, ProcessState,
    SnapshotStep, WaitStep, CLONE_CHILD_SETTID, CLONE_PARENT_SETTID, CLONE_THREAD, CLONE_VM,
    PR_GET_NAME, PR_SET_NAME, WNOHANG,
};

fn page() -> Vec<u8> {
    vec![0u8; 65536]
}

fn put_i32(mem: &mut [u8], at: usize, v: i32) {
    mem[at..at + 4].copy_from_slice(&v.to_le_bytes());
}

fn get_i32(mem: &[u8], at: usize) -> i32 {
    i32::from_le_bytes(mem[at..at + 4].try_into().unwrap())
}

#[test]
fn exit_records_code_in_kernel() {
    let mut p = ProcessState::new();
    let ret = exit(&mut p, [42, 0, 0, 0, 0, 0]);
    assert_eq!(ret, 0, "exit should return 0; code is for the kernel");
    assert_eq!(p.exit_code, Some(42), "kernel must record exit code");
}

#[test]
fn exit_group_records_code_in_kernel() {
    let mut p = ProcessState::new();
    let ret = exit_group(&mut p, [7, 0, 0, 0, 0, 0]);
    assert_eq!(ret, 0);
    assert_eq!(p.exit_code, Some(7), "kernel must record exit_group code");
}

#[test]
fn exit_with_negative_code_truncates() {
    let mut p = ProcessState::new();
    exit(&mut p, [-1, 0, 0, 0, 0, 0]);
    assert_eq!(p.exit_code, Some(-1), "negative exit code is passed through");
}

fn clone_with(flags: i32, ptid: i64, ctid: i64, mem: &mut [u8]) -> i64 {
    let mut p = ProcessState::new();
    clone_syscall(&mut p, mem, [flags as i64, 0, ptid, ctid, 0, 0])
}

#[test]
fn clone_no_supported_flags_returns_einval() {
    let mut mem = page();
    let ret = clone_with(0, 0, 0, &mut mem);
    assert_eq!(ret, -22, "clone(0) must return -EINVAL (-22)");
}

#[test]
fn clone_unsupported_flag_returns_einval() {
    let mut mem = page();
    let ret = clone_with(0x400 | 0x0100_0000, 0x200, 0x204, &mut mem);
    assert_eq!(ret, -22, "clone(CLONE_FILES | CLONE_CHILD_SETTID) must return -EINVAL");
}

#[test]
fn clone_vm_thread_flags_accepted_and_writes_tid() {
    let mut mem = page();
    let flags = 0x100_i32 | 0x10000_i32 | 0x0100_0000 | 0x0800_0000;
    put_i32(&mut mem, 0x200, 0xdead_beef_u32 as i32);
    put_i32(&mut mem, 0x204, 0xcafe_babe_u32 as i32);
    let child_pid = clone_with(flags, 0x200, 0x204, &mut mem) as i32;
    assert!(
        child_pid > 1,
        "clone(CLONE_VM | CLONE_THREAD | …) must return child_pid > 1, got {child_pid}"
    );
    assert_eq!(get_i32(&mem, 0x200), child_pid, "CLONE_PARENT_SETTID must match child_pid");
    assert_eq!(get_i32(&mem, 0x204), child_pid, "CLONE_CHILD_SETTID must match child_pid");
}

#[test]
fn clone_vm_without_tid_writeback_returns_einval() {
    let mut mem = page();
    let ret = clone_with(0x100 | 0x10000, 0, 0, &mut mem);
    assert_eq!(
        ret, -22,
        "clone(CLONE_VM | CLONE_THREAD) without TID-writeback must return -EINVAL"
    );
    assert_eq!((CLONE_VM, CLONE_THREAD), (0x100, 0x10000));
}

#[test]
fn clone_supported_flags_writes_parent_and_child_tid() {
    let mut mem = page();
    put_i32(&mut mem, 0x200, 0xdead_beef_u32 as i32);
    put_i32(&mut mem, 0x204, 0xcafe_babe_u32 as i32);
    let child_pid = clone_with(0x0100_0000 | 0x0800_0000, 0x200, 0x204, &mut mem) as i32;
    assert!(child_pid > 1, "clone() must return child_pid > 1 (got {child_pid})");
    assert_eq!(get_i32(&mem, 0x200), child_pid, "parent_tidptr must be written with child_pid");
    assert_eq!(get_i32(&mem, 0x204), child_pid, "child_tidptr must be written with child_pid");
}

#[test]
fn clone_only_parent_settid_writes_only_parent() {
    let mut mem = page();
    put_i32(&mut mem, 0x200, 0x1111_2222_i32);
    put_i32(&mut mem, 0x204, 0x3333_4444_i32);
    let child_pid = clone_with(0x0800_0000, 0x200, 0x204, &mut mem) as i32;
    assert!(child_pid > 1);
    assert_eq!(get_i32(&mem, 0x200), child_pid, "ptid written");
    assert_eq!(
        get_i32(&mem, 0x204),
        0x3333_4444_i32,
        "ctid untouched (no CLONE_CHILD_SETTID)"
    );
    assert_eq!((CLONE_PARENT_SETTID, CLONE_CHILD_SETTID), (0x0800_0000, 0x0100_0000));
}

#[test]
fn clone_invalid_ptid_pointer_returns_efault() {
    let mut mem = page();
    let ret = clone_with(0x0800_0000, (-4_i32) as u32 as i64, 0x200, &mut mem);
    assert_eq!(ret, -14, "bad ptid_ptr must return -EFAULT (-14)");
}

#[test]
fn fork_returns_positive_child_pid() {
    let mut p = ProcessState::new();
    let r = fork_syscall(&mut p, [0; 6]);
    assert!(r > 0, "fork() must return a positive child PID, got {r}");
    assert!(r >= 2, "fork() child PID must be >= 2 (PID 1 reserved for init), got {r}");
}

fn child(p: &ProcessState, pid: i32) -> Option<ChildExitStatus> {
    p.children.iter().find(|c| c.0 == pid).map(|c| c.1)
}

#[test]
fn fork_inserts_child_into_kernel_children_table() {
    let mut p = ProcessState::new();
    let r = fork_syscall(&mut p, [0; 6]);
    assert!(r > 0);
    let entry = child(&p, r as i32).expect("fork() must insert the child PID into Kernel.children");
    assert!(!entry.exited, "freshly-forked child must have exited = false");
    assert_eq!(entry.exit_code, 0, "freshly-forked child must have exit_code = 0");
}

#[test]
fn fork_increments_next_pid_by_one() {
    let mut p = ProcessState::new();
    let pre = p.next_pid;
    let r = fork_syscall(&mut p, [0; 6]);
    let post = p.next_pid;
    assert_eq!(post - pre, 1, "fork() must increment next_pid by exactly 1");
    assert_eq!(r as i32, pre, "fork() returns the pre-incremented PID");
}

#[test]
fn fork_does_not_resume_child_fiber_in_v1() {
    let mut p = ProcessState::new();
    let r1 = fork_syscall(&mut p, [0; 6]);
    let r2 = fork_syscall(&mut p, [0; 6]);
    assert!(r1 > 0 && r2 > 0, "both forks must return positive PIDs");
    assert_ne!(r1, r2, "two forks must produce distinct PIDs");
    assert!(child(&p, r1 as i32).is_some());
    assert!(child(&p, r2 as i32).is_some());
    assert!(!child(&p, r1 as i32).unwrap().exited);
    assert!(!child(&p, r2 as i32).unwrap().exited);
}

#[test]
fn a_child_is_reaped_once() {
    let mut p = ProcessState::new();
    let mut mem = page();
    let pid = fork_syscall(&mut p, [0; 6]) as i32;
    assert_eq!(try_reap(&mut p, -1), None, "a running child is not reaped");
    put_child(&mut p, pid, ChildExitStatus { exited: true, exit_code: 5 });
    let step = wait4_syscall(&mut p, &mut mem, [pid as i64, 64, 0, 0, 0, 0]);
    assert_eq!(step, WaitStep::Done(pid as i64));
    assert_eq!(get_i32(&mem, 64), 5 << 8);
    let again = wait4_syscall(&mut p, &mut mem, [pid as i64, 64, 0, 0, 0, 0]);
    assert_eq!(again, WaitStep::Done(-ECHILD));
}

#[test]
fn wait_without_children_is_echild() {
    let mut p = ProcessState::new();
    let mut mem = page();
    assert_eq!(wait4_syscall(&mut p, &mut mem, [-1, 0, 0, 0, 0, 0]), WaitStep::Done(-ECHILD));
    assert_eq!(
        wait4_syscall(&mut p, &mut mem, [77, 0, WNOHANG as i64, 0, 0, 0]),
        WaitStep::Done(-ECHILD)
    );
}

#[test]
fn wait_with_wnohang_does_not_wait() {
    let mut p = ProcessState::new();
    let mut mem = page();
    fork_syscall(&mut p, [0; 6]);
    let step = wait4_syscall(&mut p, &mut mem, [-1, 0, WNOHANG as i64, 0, 0, 0]);
    assert_eq!(step, WaitStep::Done(0));
}

#[test]
fn waiting_looks_again_until_the_child_ends() {
    let mut p = ProcessState::new();
    let mut mem = page();
    let pid = fork_syscall(&mut p, [0; 6]) as i32;
    let a = [pid as i64, 0, 0, 0, 0, 0];
    let looked = match wait4_syscall(&mut p, &mut mem, a) {
        WaitStep::Tick { looked } => looked,
        other => panic!("expected a wait, got {other:?}"),
    };
    let next = wait4_tick(&mut p, &mut mem, a, looked);
    assert!(matches!(next, WaitStep::Tick { .. } | WaitStep::ChildEvent));
    put_child(&mut p, pid, ChildExitStatus { exited: true, exit_code: 0 });
    assert_eq!(wait4_child_event(&mut p, &mut mem, a), WaitStep::Done(pid as i64));
}

#[test]
fn a_bad_status_pointer_is_efault() {
    let mut mem = page();
    assert_eq!(write_wstatus_and_return(&mut mem, 9, 1, 65536), -EFAULT);
    assert_eq!(write_wstatus_and_return(&mut mem, 9, 1, 0), 9);
}

#[test]
fn exit_frees_the_children() {
    let mut p = ProcessState::new();
    let mut mem = page();
    let pid = fork_syscall(&mut p, [0; 6]);
    reap_all_children(&mut p);
    assert!(child(&p, pid as i32).unwrap().exited, "nobody waits for it in vain");
    assert_eq!(wait4_syscall(&mut p, &mut mem, [-1, 0, 0, 0, 0, 0]), WaitStep::Done(pid));
    assert_eq!(wait4_syscall(&mut p, &mut mem, [-1, 0, 0, 0, 0, 0]), WaitStep::Done(-ECHILD));
}

#[test]
fn a_name_is_told_as_it_was_set() {
    let mut p = ProcessState::new();
    let mut mem = page();
    mem[256..262].copy_from_slice(b"worker");
    assert_eq!(prctl(&mut p, &mut mem, [PR_SET_NAME as i64, 256, 0, 0, 0, 0]), 0);
    assert_eq!(prctl(&mut p, &mut mem, [PR_GET_NAME as i64, 512, 0, 0, 0, 0]), 0);
    assert_eq!(&mem[512..520], b"worker\0\0");
    assert_eq!(prctl(&mut p, &mut mem, [PR_GET_NAME as i64, 65535, 0, 0, 0, 0]), -EFAULT);
}

#[test]
fn kill_records_the_signal() {
    let mut p = ProcessState::new();
    assert_eq!(kill(&mut p, [1, 15, 0, 0, 0, 0]), 0);
    assert_eq!(p.signals_pending, vec![15]);
    assert_eq!(tgkill(&mut p, [1, 1, 10, 0, 0, 0]), 0);
    assert_eq!(p.signals_pending, vec![15, 10]);
    assert_eq!(kill(&mut p, [4242, 15, 0, 0, 0, 0]), -ESRCH);
    assert_eq!(_kill_perm(), -EPERM);
    assert_eq!(kill(&mut p, [1, 999, 0, 0, 0, 0]), -EINVAL);
}

#[test]
fn one_processor_is_shown() {
    let mut mem = page();
    let r = sched_getaffinity(&mut mem, [0, 8, 1024, 0, 0, 0]);
    assert_eq!(r, 8);
    assert_eq!(mem[1024], 1);
    assert_eq!(sched_getaffinity(&mut mem, [0, 8, 65535, 0, 0, 0]), -EFAULT);
    assert_eq!(sched_yield(), 0);
    assert_eq!(set_robust_list(), 0);
    assert_eq!(set_tid_address([0; 6]), 1);
}

#[test]
fn a_snapshot_names_its_file() {
    let mut mem = page();
    mem[300..308].copy_from_slice(b"/tmp/s\0x");
    match snapshot_syscall(&mem, [300, 0, 0, 0, 0, 0]) {
        SnapshotStep::Write { path } => assert_eq!(path, b"/tmp/s".to_vec()),
        SnapshotStep::Done(r) => panic!("got {r}"),
    }
    assert!(matches!(snapshot_syscall(&mem, [0; 6]), SnapshotStep::Done(r) if r == -EFAULT));
    assert_eq!(snapshot_done(Some(12)), 12);
    assert_eq!(snapshot_done(None), -EIO);
}
