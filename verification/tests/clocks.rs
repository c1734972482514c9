//! Clocks, sleeping, and what the guest is told of its system.

use edge_libos::errno::{EFAULT, EINVAL, ENOTTY, EPERM};
use edge_libos::fd::FdTable;
use edge_libos::sys::identity::{
    getegid, geteuid, getgid, getgroups, getppid, getrlimit, getsid, getuid, prlimit64, setsid, uname,
};
use edge_libos::sys::ioctl::ioctl;
use edge_libos::sys::time::{
    clock_getres, clock_gettime, clock_nanosleep, compute_time, gettimeofday, nanosleep, sleep_on_clock, slept,
    sysinfo, tell_day_time, tell_time, time_shown, times, SleepStep, CLOCK_MONOTONIC, CLOCK_REALTIME,
    SYSINFO_PROCS_OFF, TIMER_ABSTIME,
};

fn page() -> Vec<u8> {
    vec![0u8; 65536]
}

fn pair(mem: &[u8], at: usize) -> (i64, i64) {
    (
        i64::from_le_bytes(mem[at..at + 8].try_into().unwrap()),
        i64::from_le_bytes(mem[at + 8..at + 16].try_into().unwrap()),
    )
}

fn put_pair(mem: &mut [u8], at: usize, sec: i64, nsec: i64) {
    mem[at..at + 8].copy_from_slice(&sec.to_le_bytes());
    mem[at + 8..at + 16].copy_from_slice(&nsec.to_le_bytes());
}

#[test]
fn the_wall_clock_is_past_its_making() {
    let mut mem = page();
    assert_eq!(clock_gettime(&mut mem, [CLOCK_REALTIME, 100, 0, 0, 0, 0], 0), 0);
    let (sec, nsec) = pair(&mem, 100);
    assert!(sec > 1_700_000_000, "the seconds since 1970, not {sec}");
    assert!((0..1_000_000_000).contains(&nsec));
    assert_eq!(gettimeofday(&mut mem, [200, 0, 0, 0, 0, 0]), 0);
    let (again, usec) = pair(&mem, 200);
    assert!(again >= sec && again <= sec + 5);
    assert!((0..1_000_000).contains(&usec));
}

#[test]
fn the_monotonic_clock_shows_what_has_elapsed() {
    let mut mem = page();
    assert_eq!(clock_gettime(&mut mem, [CLOCK_MONOTONIC, 100, 0, 0, 0, 0], 3_000_000_007), 0);
    assert_eq!(pair(&mem, 100), (3, 7));
    assert_eq!(compute_time(CLOCK_MONOTONIC, 5), Some((0, 5)));
    assert_eq!(compute_time(77, 5), None);
    assert_eq!(clock_gettime(&mut mem, [77, 100, 0, 0, 0, 0], 0), -EINVAL);
    assert_eq!(clock_gettime(&mut mem, [1, 65530, 0, 0, 0, 0], 0), -EFAULT);
}

#[test]
fn given_times_are_told() {
    let mut mem = page();
    assert_eq!(time_shown(CLOCK_REALTIME, (11, 22), 99), Some((11, 22)));
    assert_eq!(time_shown(CLOCK_MONOTONIC, (11, 22), 999_999_999), Some((0, 999_999_999)));
    assert_eq!(time_shown(CLOCK_MONOTONIC, (1, 2), 2_000_000_001), Some((2, 1)));
    assert_eq!(tell_time(&mut mem, [0, 100, 0, 0, 0, 0], Some((11, 22))), 0);
    assert_eq!(pair(&mem, 100), (11, 22));
    assert_eq!(tell_time(&mut mem, [0, 100, 0, 0, 0, 0], None), -EINVAL);
    assert_eq!(tell_day_time(&mut mem, [200, 0, 0, 0, 0, 0], (11, 22_999)), 0);
    assert_eq!(pair(&mem, 200), (11, 22));
    assert_eq!(clock_getres(&mut mem, [0, 300, 0, 0, 0, 0]), 0);
    assert_eq!(pair(&mem, 300), (0, 1));
    assert_eq!(clock_getres(&mut mem, [77, 300, 0, 0, 0, 0]), -EINVAL);
}

#[test]
fn sleeps_are_counted_in_nanoseconds() {
    let mut mem = page();
    put_pair(&mut mem, 100, 2, 3);
    put_pair(&mut mem, 300, 9, 9);
    assert_eq!(nanosleep(&mem, [100, 300, 0, 0, 0, 0]), SleepStep::Sleep { ns: 2_000_000_003, rem: 300 });
    assert_eq!(slept(&mut mem, 300), 0);
    assert_eq!(pair(&mem, 300), (0, 0));
    put_pair(&mut mem, 100, 0, 1_000_000_000);
    assert_eq!(nanosleep(&mem, [100, 0, 0, 0, 0, 0]), SleepStep::Done(-EINVAL));
    put_pair(&mut mem, 100, i64::MAX, 0);
    assert_eq!(nanosleep(&mem, [100, 0, 0, 0, 0, 0]), SleepStep::Sleep { ns: u64::MAX, rem: 0 });
}

#[test]
fn a_moment_that_has_passed_is_not_slept_for() {
    let mut mem = page();
    put_pair(&mut mem, 100, 10, 0);
    let a = [CLOCK_MONOTONIC, TIMER_ABSTIME as i64, 100, 0, 0, 0];
    assert_eq!(sleep_on_clock(&mem, a, (10, 0)), SleepStep::Done(0));
    assert_eq!(sleep_on_clock(&mem, a, (9, 999_999_999)), SleepStep::Sleep { ns: 1, rem: 0 });
    assert_eq!(clock_nanosleep(&mem, a, 4_000_000_000), SleepStep::Sleep { ns: 6_000_000_000, rem: 0 });
    assert_eq!(clock_nanosleep(&mem, [77, 0, 100, 0, 0, 0], 0), SleepStep::Done(-EINVAL));
}

#[test]
fn the_system_describes_itself() {
    let mut mem = page();
    assert_eq!(sysinfo(&mut mem, [100, 0, 0, 0, 0, 0]), 0);
    assert_eq!(mem[100 + SYSINFO_PROCS_OFF], 1);
    assert_eq!(sysinfo(&mut mem, [65500, 0, 0, 0, 0, 0]), -EFAULT);
    assert!(times(&mut mem, [1000, 0, 0, 0, 0, 0]) >= 0);
    assert_eq!(uname(&mut mem, [2000, 0, 0, 0, 0, 0]), 0);
    assert_eq!(&mem[2000..2006], b"Linux\0");
    assert_eq!(&mem[2000 + 65..2000 + 76], b"edge-libos\0");
    assert_eq!(uname(&mut mem, [65500, 0, 0, 0, 0, 0]), -EFAULT);
}

#[test]
fn the_guest_has_one_identity() {
    assert_eq!((getuid(), geteuid(), getgid(), getegid()), (1000, 1000, 1000, 1000));
    assert_eq!(getppid(), 1);
    assert_eq!(setsid(), -EPERM);
    assert_eq!(getsid([0; 6]), 1);
    assert_eq!(getgroups([0; 6]), 0);
    let mut mem = page();
    assert_eq!(prlimit64(&mut mem, [0, 7, 0, 100, 0, 0]), 0);
    assert_eq!(getrlimit(&mut mem, [7, 200, 0, 0, 0, 0]), 0);
    assert_eq!(mem[100..116].to_vec(), mem[200..216].to_vec());
}

#[test]
fn a_terminal_has_a_size() {
    let mut fds = FdTable::empty();
    let mut mem = page();
    assert_eq!(ioctl(&mut fds, &mut mem, [1, 0x5413, 100, 0, 0, 0]), 0);
    assert_eq!(&mem[100..108], &[24, 0, 80, 0, 0, 0, 0, 0]);
    assert_eq!(ioctl(&mut fds, &mut mem, [1, 0x5413, 0, 0, 0, 0]), -EINVAL);
    assert_eq!(ioctl(&mut fds, &mut mem, [1, 0x1234, 0, 0, 0, 0]), -ENOTTY);
}
