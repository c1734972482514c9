//! Calls with pointers outside the memory, and a guest as a whole.

use edge_libos::errno::{EBADF, EFAULT, EINVAL, ENOSYS};
use edge_libos::fd::{STDERR, STDIN, STDOUT};
use edge_libos::kernel::Kernel;
use edge_libos::path::split_steps;
use edge_libos::sys::epoll::{epoll_create1, epoll_ctl, epoll_wait, EpollStep};
use edge_libos::sys::eventfd::eventfd2;
use edge_libos::sys::file::{
    fstat, getcwd, getdents64, pipe, pipe2, read, readv, writev, DirStep, FstatStep, ReadStep, WriteStep,
};
use edge_libos::sys::fs::{lstat, open, openat, stat, StatStep};
use edge_libos::sys::poll::{poll, PollStep};
use edge_libos::sys::random::getrandom;
use edge_libos::sys::signal::{rt_sigaction, rt_sigprocmask};
use edge_libos::sys::socket::{bind, getpeername, getsockname, getsockopt, listen, setsockopt, BindStep};
use edge_libos::sys::time::{clock_gettime, gettimeofday, nanosleep, SleepStep};
use edge_libos::vfs::Vfs;
use rand::rngs::SmallRng;
use rand::SeedableRng;

const POISON_PTR: [i64; 7] = [-1, i64::MIN, i64::MAX, 1 << 33, 65_536, 65_537, 131_072];

struct Guest {
    k: Kernel,
    mem: Vec<u8>,
}

fn guest() -> Guest {
    let vfs = match Vfs::new(Ok(split_steps(b"/"))) {
        Ok(v) => v,
        Err(e) => panic!("no tree: {e}"),
    };
    Guest { k: Kernel::new(vec![], vec![], vfs), mem: vec![0u8; 65536] }
}

fn safe(name: &str, ret: i64) {
    let errors = [-EFAULT, -EINVAL, -ENOSYS, -EBADF];
    assert!(
        errors.contains(&ret),
        "{name}: poisoned call returned {ret}, expected EFAULT/EINVAL/ENOSYS/EBADF"
    );
}

fn do_read(a: [i64; 6]) -> i64 {
    let mut g = guest();
    match read(&mut g.k.fds, &mut g.mem, a) {
        ReadStep::Done(r) => r,
        other => panic!("{other:?}"),
    }
}

fn do_write(a: [i64; 6]) -> i64 {
    let mut g = guest();
    match edge_libos::sys::file::write(&mut g.k.fds, &g.mem, a) {
        WriteStep::Done { ret, .. } => ret,
        _ => panic!("nothing is left to the host"),
    }
}

fn do_openat(a: [i64; 6]) -> i64 {
    let g = guest();
    match openat(&g.k.fds, &g.k.vfs, &g.mem, a) {
        Ok(_) => panic!("nothing is left to the host"),
        Err(e) => e,
    }
}

fn do_fstat(a: [i64; 6]) -> i64 {
    let mut g = guest();
    match fstat(&g.k.fds, &mut g.mem, a) {
        FstatStep::Done(r) => r,
        other => panic!("{other:?}"),
    }
}

fn do_getdents64(a: [i64; 6]) -> i64 {
    let mut g = guest();
    match getdents64(&mut g.k.fds, &mut g.mem, a) {
        DirStep::Done(r) => r,
        _ => panic!("nothing is left to the host"),
    }
}

fn do_nanosleep(a: [i64; 6]) -> i64 {
    let g = guest();
    match nanosleep(&g.mem, a) {
        SleepStep::Done(r) => r,
        other => panic!("{other:?}"),
    }
}

fn do_poll(a: [i64; 6]) -> i64 {
    let mut g = guest();
    match poll(&g.k.fds, &mut g.mem, a) {
        PollStep::Done(r) => r,
        PollStep::Wait(_) => panic!("there is nothing to wait for"),
    }
}

fn do_epoll_wait(a: [i64; 6]) -> i64 {
    let mut g = guest();
    match epoll_wait(&g.k.fds, &mut g.mem, a) {
        EpollStep::Done(r) => r,
        EpollStep::Wait(_) => panic!("there is nothing to wait for"),
    }
}

fn do_bind(a: [i64; 6]) -> i64 {
    let mut g = guest();
    match bind(&mut g.k.fds, &g.mem, a) {
        BindStep::Done(r) => r,
        BindStep::Probe { .. } => panic!("nothing is left to the host"),
    }
}

fn do_stat(step: StatStep) -> i64 {
    match step {
        StatStep::Done(r) => r,
        _ => panic!("nothing is left to the host"),
    }
}

#[test]
fn fuzz_read_bad_buf_pointer() {
    for ptr in POISON_PTR {
        safe("read", do_read([0, ptr, 16, 0, 0, 0]));
    }
}

#[test]
fn fuzz_write_bad_buf_pointer() {
    for ptr in POISON_PTR {
        safe("write", do_write([1, ptr, 16, 0, 0, 0]));
    }
}

#[test]
fn fuzz_openat_bad_path_pointer() {
    for ptr in POISON_PTR {
        safe("openat", do_openat([-100, ptr, 0, 0, 0, 0]));
    }
}

#[test]
fn fuzz_fstat_bad_statbuf_pointer() {
    for ptr in POISON_PTR {
        safe("fstat", do_fstat([1, ptr, 0, 0, 0, 0]));
    }
}

#[test]
fn fuzz_getdents64_bad_buf_pointer() {
    for ptr in POISON_PTR {
        safe("getdents64", do_getdents64([1, ptr, 1024, 0, 0, 0]));
    }
}

#[test]
fn fuzz_clock_gettime_bad_timespec_pointer() {
    for ptr in POISON_PTR {
        safe("clock_gettime", clock_gettime(&mut guest().mem, [0, ptr, 0, 0, 0, 0], 0));
    }
}

#[test]
fn fuzz_gettimeofday_bad_timeval_pointer() {
    for ptr in POISON_PTR {
        safe("gettimeofday", gettimeofday(&mut guest().mem, [ptr, 0, 0, 0, 0, 0]));
    }
}

#[test]
fn fuzz_nanosleep_bad_req_pointer() {
    for ptr in POISON_PTR {
        safe("nanosleep", do_nanosleep([ptr, 0, 0, 0, 0, 0]));
    }
}

#[test]
fn fuzz_getrandom_bad_buf_pointer() {
    let mut rng = SmallRng::seed_from_u64(1);
    for ptr in POISON_PTR {
        safe("getrandom", getrandom(&mut rng, &mut guest().mem, [ptr, 16, 0, 0, 0, 0]));
    }
}

#[test]
fn fuzz_rt_sigaction_bad_act_pointer() {
    for ptr in POISON_PTR {
        let mut g = guest();
        safe("rt_sigaction", rt_sigaction(&mut g.k.signals, &mut g.mem, [2, ptr, 0, 8, 0, 0]));
    }
}

#[test]
fn fuzz_rt_sigprocmask_bad_set_pointer() {
    for ptr in POISON_PTR {
        let mut g = guest();
        safe("rt_sigprocmask", rt_sigprocmask(&mut g.k.signals, &mut g.mem, [0, ptr, 0, 8, 0, 0]));
    }
}

#[test]
fn fuzz_pipe2_bad_fdarray_pointer() {
    for ptr in POISON_PTR {
        let mut g = guest();
        safe("pipe2", pipe2(&mut g.k.fds, &mut g.mem, [ptr, 0, 0, 0, 0, 0]));
    }
}

#[test]
fn fuzz_bind_bad_sockaddr_pointer() {
    for ptr in POISON_PTR {
        safe("bind", do_bind([3, ptr, 16, 0, 0, 0]));
    }
}

#[test]
fn fuzz_listen_no_pointer_args() {
    safe("listen", listen(&mut guest().k.fds, [0, 5, 0, 0, 0, 0]));
}

#[test]
fn fuzz_setsockopt_bad_optval_pointer() {
    for ptr in POISON_PTR {
        let mut g = guest();
        safe("setsockopt", setsockopt(&mut g.k.fds, &g.mem, [3, 1, 2, ptr, 4, 0]));
    }
}

#[test]
fn fuzz_getsockopt_bad_optval_pointer() {
    for ptr in POISON_PTR {
        let mut g = guest();
        safe("getsockopt", getsockopt(&mut g.k.fds, &mut g.mem, [3, 1, 4, ptr, 4, 0]));
    }
}

#[test]
fn fuzz_getsockname_bad_addr_pointer() {
    for ptr in POISON_PTR {
        let mut g = guest();
        safe("getsockname", getsockname(&g.k.fds, &mut g.mem, [3, ptr, 16, 0, 0, 0]));
    }
}

#[test]
fn fuzz_getpeername_bad_addr_pointer() {
    for ptr in POISON_PTR {
        let mut g = guest();
        safe("getpeername", getpeername(&g.k.fds, &mut g.mem, [3, ptr, 16, 0, 0, 0]));
    }
}

#[test]
fn fuzz_poll_bad_fds_pointer() {
    for ptr in POISON_PTR {
        safe("poll", do_poll([ptr, 1, 0, 0, 0, 0]));
    }
}

#[test]
fn fuzz_epoll_create1_no_pointer_args() {
    let ret = epoll_create1(&mut guest().k.fds, [0; 6]);
    assert!(
        ret >= 3 || ret == -EFAULT || ret == -EINVAL || ret == -ENOSYS || ret == -EBADF,
        "epoll_create1 returned {ret}, expected fd or safe error"
    );
}

#[test]
fn fuzz_epoll_ctl_bad_event_pointer() {
    for ptr in POISON_PTR {
        let mut g = guest();
        safe("epoll_ctl", epoll_ctl(&mut g.k.fds, &g.mem, [9999, 1, 1, ptr, 0, 0]));
    }
}

#[test]
fn fuzz_epoll_wait_bad_events_pointer() {
    for ptr in POISON_PTR {
        safe("epoll_wait", do_epoll_wait([9999, ptr, 4, 0, 0, 0]));
    }
}

#[test]
fn fuzz_eventfd2_no_pointer_args() {
    let ret = eventfd2(&mut guest().k.fds, [0; 6]);
    assert!(
        ret >= 3 || ret == -EFAULT || ret == -EINVAL || ret == -ENOSYS || ret == -EBADF,
        "eventfd2 returned {ret}, expected fd or safe error"
    );
}

#[test]
fn fuzz_overflow_ptr_plus_len_every_pointer_syscall() {
    let huge = i64::MAX / 2;
    safe("read", do_read([0, huge, huge, 0, 0, 0]));
    safe("write", do_write([1, huge, huge, 0, 0, 0]));
    safe("openat", do_openat([-100, huge, 0, 0, 0, 0]));
    safe("fstat", do_fstat([1, huge, 0, 0, 0, 0]));
    safe("getdents64", do_getdents64([1, huge, huge, 0, 0, 0]));
    safe("clock_gettime", clock_gettime(&mut guest().mem, [0, huge, 0, 0, 0, 0], 0));
    safe("gettimeofday", gettimeofday(&mut guest().mem, [huge, 0, 0, 0, 0, 0]));
    safe("nanosleep", do_nanosleep([huge, 0, 0, 0, 0, 0]));
    let mut rng = SmallRng::seed_from_u64(1);
    safe("getrandom", getrandom(&mut rng, &mut guest().mem, [huge, huge, 0, 0, 0, 0]));
    let mut g = guest();
    safe("rt_sigaction", rt_sigaction(&mut g.k.signals, &mut g.mem, [2, huge, 0, 8, 0, 0]));
    safe("rt_sigprocmask", rt_sigprocmask(&mut g.k.signals, &mut g.mem, [0, huge, 0, 8, 0, 0]));
    safe("pipe2", pipe2(&mut g.k.fds, &mut g.mem, [huge, 0, 0, 0, 0, 0]));
    safe("pipe", pipe(&mut g.k.fds, &mut g.mem, [huge, 0, 0, 0, 0, 0]));
    match open(&g.k.fds, &g.k.vfs, &g.mem, [huge, 0, 0, 0, 0, 0]) {
        Ok(_) => panic!("nothing is left to the host"),
        Err(e) => safe("open", e),
    }
    safe("stat", do_stat(stat(&g.k.fds, &g.k.vfs, &g.mem, [huge, huge, 0, 0, 0, 0])));
    safe("lstat", do_stat(lstat(&g.k.fds, &g.k.vfs, &g.mem, [huge, huge, 0, 0, 0, 0])));
    safe("getcwd", getcwd(&g.k.vfs.cwd, &mut g.mem, [huge, 256, 0, 0, 0, 0]));
    match readv(&g.mem, [1, huge, huge, 0, 0, 0]) {
        Ok(_) => panic!("readv goes on"),
        Err(e) => safe("readv", e),
    }
    match writev(&g.mem, [1, huge, huge, 0, 0, 0]) {
        Ok(_) => panic!("writev goes on"),
        Err(e) => safe("writev", e),
    }
    safe("bind", do_bind([3, huge, huge, 0, 0, 0]));
    safe("setsockopt", setsockopt(&mut g.k.fds, &g.mem, [3, 1, 2, huge, huge, 0]));
    safe("getsockopt", getsockopt(&mut g.k.fds, &mut g.mem, [3, 1, 4, huge, huge, 0]));
    safe("getsockname", getsockname(&g.k.fds, &mut g.mem, [3, huge, huge, 0, 0, 0]));
    safe("getpeername", getpeername(&g.k.fds, &mut g.mem, [3, huge, huge, 0, 0, 0]));
    safe("poll", do_poll([huge, 1, 0, 0, 0, 0]));
    safe("epoll_ctl", epoll_ctl(&mut g.k.fds, &g.mem, [huge, 1, 1, huge, 0, 0]));
    safe("epoll_wait", do_epoll_wait([huge, huge, 4, 0, 0, 0]));
    let made = epoll_create1(&mut g.k.fds, [0; 6]);
    assert!(made >= 3, "epoll_create1 returned {made}");
    let counter = eventfd2(&mut g.k.fds, [0; 6]);
    assert!(counter >= 3, "eventfd2 returned {counter}");
}

#[test]
fn fuzz_i64_min_pointer_returns_efault_not_panic() {
    assert_eq!(do_write([1, i64::MIN, 16, 0, 0, 0]), -EFAULT);
}

#[test]
fn dispatch_survives_negative_pointer_on_write() {
    let ret = do_write([1, -1, 10, 0, 0, 0]);
    assert_eq!(ret, -EFAULT, "negative pointer must yield -EFAULT, got {ret}");
}

#[test]
fn dispatch_survives_pointer_past_end_of_memory() {
    let ret = do_write([1, 100_000, 10, 0, 0, 0]);
    assert_eq!(ret, -EFAULT, "pointer past end of memory must yield -EFAULT, got {ret}");
}

#[test]
fn dispatch_survives_negative_len_on_write() {
    let ret = do_write([1, 0, -1, 0, 0, 0]);
    assert_eq!(ret, -EFAULT, "negative length must yield -EFAULT, got {ret}");
}

#[test]
fn dispatch_survives_overflowing_ptr_plus_len() {
    let huge = i64::MAX / 2;
    let ret = do_write([1, huge, huge, 0, 0, 0]);
    assert_eq!(ret, -EFAULT, "ptr+len overflow must yield -EFAULT, got {ret}");
}

#[test]
fn dispatch_routes_write_to_implementation() {
    let mut g = guest();
    g.mem[0x100..0x104].copy_from_slice(b"hi\n\0");
    let ret = match edge_libos::sys::file::write(&mut g.k.fds, &g.mem, [1, 0x100, 4, 0, 0, 0]) {
        WriteStep::Done { ret, .. } => ret,
        _ => panic!("nothing is left to the host"),
    };
    assert_eq!(ret, 4, "expected 4 bytes written from dispatched NR_WRITE, got {ret}");
}

#[test]
fn kernel_new_constructs_with_default_state() {
    let vfs = match Vfs::new(Ok(split_steps(b"/"))) {
        Ok(v) => v,
        Err(e) => panic!("no tree: {e}"),
    };
    let k = Kernel::new(
        vec!["python".into(), "hello.py".into()],
        vec![("PYTHONUNBUFFERED".into(), "1".into())],
        vfs,
    );
    assert_eq!(k.args.len(), 2);
    assert_eq!(k.env.len(), 1);
    assert!(k.fds.contains(STDIN), "fd 0 (stdin) must be preloaded");
    assert!(k.fds.contains(STDOUT), "fd 1 (stdout) must be preloaded");
    assert!(k.fds.contains(STDERR), "fd 2 (stderr) must be preloaded");
}
