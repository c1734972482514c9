//! Numbers and layouts that the guest's side fixes.

use edge_libos::errno::{to_ret, EFAULT};
use edge_libos::sys::epoll::{EPOLL_EVENT_SIZE, NR_EPOLL_PWAIT};
use edge_libos::sys::eventfd::{NR_EVENTFD, NR_EVENTFD2};
use edge_libos::sys::file::{NR_GETDENTS64, NR_OPENAT, NR_WRITE};
use edge_libos::sys::futex::{
    FUTEX_CLOCK_REALTIME, FUTEX_CMD_MASK, FUTEX_PRIVATE_FLAG, FUTEX_WAIT, FUTEX_WAKE, INVALID_FUTEX_ADDR,
    NR_FUTEX,
};
use edge_libos::sys::identity::{
    NR_GETEGID, NR_GETEUID, NR_GETGID, NR_GETGROUPS, NR_GETPPID, NR_GETRLIMIT, NR_GETSID, NR_GETUID,
    NR_PRLIMIT64, NR_SETSID, NR_UNAME, UTSNAME_FIELD, UTSNAME_FIELDS, UTSNAME_SIZE,
};
use edge_libos::sys::ioctl::{NR_IOCTL, WINSIZE_SIZE};
use edge_libos::mm::{MAP_ANONYMOUS, MAP_PRIVATE};
use edge_libos::sys::memory::{NR_BRK, NR_MMAP, NR_MUNMAP};
use edge_libos::sys::poll::{FD_SET_LONGS, NR_PPOLL, NR_SELECT, POLLFD_SIZE};
use edge_libos::sys::process::{
    getpid, gettid, NR_ARCH_PRCTL, NR_CLONE, NR_EXIT, NR_EXIT_GROUP, NR_FORK, NR_GETPID, NR_GETTID, NR_KILL,
    NR_PRCTL, NR_RSEQ, NR_SCHED_GETAFFINITY, NR_SCHED_YIELD, NR_SET_ROBUST_LIST, NR_SET_TID_ADDRESS,
    NR_TGKILL, NR_WAIT4,
};
use edge_libos::sys::random::{MAX_LEN, NR_GETRANDOM};
use edge_libos::sys::resolver::{ADDRINFO_SIZE, NR_RESOLVE, SOCKADDR_IN6_SIZE, SOCKADDR_IN_SIZE};
use edge_libos::sys::signal::{
    NR_RT_SIGACTION, NR_RT_SIGPROCMASK, NR_RT_SIGRETURN, NR_SIGALTSTACK, SIGACTION_SIZE, SIGALTSTACK_SIZE,
};
use edge_libos::sys::socket::{
    MSGHDR_SIZE, MSG_CTRUNC, MSG_DONTWAIT, MSG_NOSIGNAL, MSG_PEEK, MSG_TRUNC, NR_RECVMSG, NR_SENDMSG,
};
use edge_libos::sys::time::{
    NR_CLOCK_GETRES, NR_CLOCK_GETTIME, NR_CLOCK_NANOSLEEP, NR_GETTIMEOFDAY, NR_NANOSLEEP, NR_SYSINFO,
    NR_TIMES, SYSINFO_SIZE, TIMESPEC_NSEC_OFF, TIMESPEC_SIZE, TIMEVAL_SIZE, TIMEVAL_USEC_OFF, TMS_SIZE,
};

const PROT_READ: i32 = 0x1;
const PROT_WRITE: i32 = 0x2;
const PROT_RW: i32 = PROT_READ | PROT_WRITE;

#[test]
fn epoll_pwait_nr_is_linux_281() {
    assert_eq!(NR_EPOLL_PWAIT, 281);
}

#[test]
fn epoll_event_size_is_12_on_wasm32() {
    assert_eq!(EPOLL_EVENT_SIZE, 12);
}

#[test]
fn eventfd_nr_is_linux_284() {
    assert_eq!(NR_EVENTFD, 284);
    assert_eq!(NR_EVENTFD2, 290);
}

#[test]
fn nr_matches_linux_x86_64() {
    assert_eq!(NR_FUTEX, 202);
}

#[test]
fn cmd_mask_strips_flags() {
    let op_with_flag = FUTEX_WAIT | FUTEX_PRIVATE_FLAG;
    assert_eq!(op_with_flag & FUTEX_CMD_MASK, FUTEX_WAIT);
    assert_eq!(op_with_flag & FUTEX_CMD_MASK, 0);
}

#[test]
fn private_flag_constant_is_0x80() {
    assert_eq!(FUTEX_PRIVATE_FLAG, 0x80);
}

#[test]
fn clock_realtime_constant_is_0x100() {
    assert_eq!(FUTEX_CLOCK_REALTIME, 0x100);
}

#[test]
fn invalid_addr_sentinel_is_max_u32() {
    assert_eq!(INVALID_FUTEX_ADDR, 0xFFFF_FFFF);
    assert_eq!(INVALID_FUTEX_ADDR as u64, 4_294_967_295);
}

#[test]
fn futex_conformance_nr_constants_match_linux_x86_64() {
    assert_eq!(NR_FUTEX, 202);
    assert_eq!(FUTEX_WAIT, 0);
    assert_eq!(FUTEX_WAKE, 1);
    assert_eq!(FUTEX_PRIVATE_FLAG, 0x80);
}

#[test]
fn utsname_layout() {
    assert_eq!(UTSNAME_SIZE, 390);
    assert_eq!(UTSNAME_FIELD * UTSNAME_FIELDS, 390);
}

#[test]
fn identity_nr_constants_match_linux_x86_64() {
    assert_eq!(NR_GETUID, 102);
    assert_eq!(NR_GETEUID, 107);
    assert_eq!(NR_GETGID, 104);
    assert_eq!(NR_GETEGID, 108);
    assert_eq!(NR_GETPPID, 110);
    assert_eq!(NR_UNAME, 63);
    assert_eq!(NR_PRLIMIT64, 302);
    assert_eq!(NR_GETRLIMIT, 97);
    assert_eq!(NR_SETSID, 112);
    assert_eq!(NR_GETSID, 124);
    assert_eq!(NR_GETGROUPS, 115);
}

#[test]
fn nr_ioctl_matches_linux() {
    assert_eq!(NR_IOCTL, 16);
}

#[test]
fn winsize_layout() {
    assert_eq!(WINSIZE_SIZE, 8);
}

#[test]
fn poll_sizeof_pollfd_is_8() {
    assert_eq!(POLLFD_SIZE, 8);
    assert_eq!(std::mem::size_of::<i32>() + 2 * std::mem::size_of::<i16>(), 8);
}

#[test]
fn ppoll_nr_is_linux_271() {
    assert_eq!(NR_PPOLL, 271);
}

#[test]
fn select_nr_is_linux_23() {
    assert_eq!(NR_SELECT, 23);
}

#[test]
fn fd_set_longs_matches_fd_setsize() {
    assert_eq!(FD_SET_LONGS, 16);
    assert_eq!(FD_SET_LONGS * 8, 128);
}

#[test]
fn process_nr_constants_match_linux_x86_64() {
    assert_eq!(NR_EXIT, 60);
    assert_eq!(NR_EXIT_GROUP, 231);
    assert_eq!(NR_GETPID, 39);
    assert_eq!(NR_GETTID, 186);
    assert_eq!(NR_SET_TID_ADDRESS, 218);
    assert_eq!(NR_SET_ROBUST_LIST, 273);
    assert_eq!(NR_ARCH_PRCTL, 158);
    assert_eq!(NR_RSEQ, 334);
    assert_eq!(NR_SCHED_YIELD, 24);
    assert_eq!(NR_SCHED_GETAFFINITY, 204);
    assert_eq!(NR_PRCTL, 157);
    assert_eq!(NR_KILL, 62);
    assert_eq!(NR_TGKILL, 234);
    assert_eq!(NR_CLONE, 56);
    assert_eq!(NR_FORK, 57);
    assert_eq!(NR_WAIT4, 61);
}

#[test]
fn identity_returns_one() {
    assert_eq!(getpid(), 1);
    assert_eq!(gettid(), 1);
}

#[test]
fn random_nr_constants_match_linux_x86_64() {
    assert_eq!(NR_GETRANDOM, 318);
}

#[test]
fn nr_constant_matches_linux_x86_64() {
    assert_eq!(NR_GETRANDOM, 318);
}

#[test]
fn max_len_is_sane() {
    assert!(MAX_LEN >= 64);
    assert!(MAX_LEN <= 65536);
}

#[test]
fn addrinfo_size_is_32() {
    assert_eq!(ADDRINFO_SIZE, 32);
    assert_eq!(std::mem::size_of::<[u32; 8]>(), 32);
}

#[test]
fn sockaddr_in_size_is_16() {
    assert_eq!(SOCKADDR_IN_SIZE, 16);
}

#[test]
fn sockaddr_in6_size_is_28() {
    assert_eq!(SOCKADDR_IN6_SIZE, 28);
}

#[test]
fn nr_resolve_is_400() {
    assert_eq!(NR_RESOLVE, 400);
}

#[test]
fn signal_nr_constants_match_linux_x86_64() {
    assert_eq!(NR_RT_SIGACTION, 13);
    assert_eq!(NR_RT_SIGPROCMASK, 14);
    assert_eq!(NR_SIGALTSTACK, 131);
    assert_eq!(NR_RT_SIGRETURN, 15);
}

#[test]
fn signal_conformance_nr_constants_match_linux_x86_64() {
    assert_eq!(NR_RT_SIGACTION, 13);
    assert_eq!(NR_RT_SIGPROCMASK, 14);
    assert_eq!(NR_SIGALTSTACK, 131);
    assert_eq!(NR_RT_SIGRETURN, 15);
}

#[test]
fn sigaction_layout_fits_in_32_bytes() {
    assert_eq!(SIGACTION_SIZE, 32);
}

#[test]
fn sigaltstack_layout_fits_in_24_bytes() {
    assert_eq!(SIGALTSTACK_SIZE, 24);
}

#[test]
fn sendmsg_nr_is_linux_46() {
    assert_eq!(NR_SENDMSG, 46);
}

#[test]
fn recvmsg_nr_is_linux_47() {
    assert_eq!(NR_RECVMSG, 47);
}

#[test]
fn msg_flag_values_match_linux() {
    assert_eq!(MSG_PEEK, 0x2);
    assert_eq!(MSG_DONTWAIT, 0x40);
    assert_eq!(MSG_NOSIGNAL, 0x4000);
    assert_eq!(MSG_TRUNC, 0x20);
    assert_eq!(MSG_CTRUNC, 0x8);
}

#[test]
fn msghdr_size_is_32_on_wasm32() {
    assert_eq!(MSGHDR_SIZE, 32);
}

#[test]
fn timespec_layout_fits_in_16_bytes() {
    assert_eq!(TIMESPEC_SIZE, 16);
    assert_eq!(TIMESPEC_NSEC_OFF, 8);
}

#[test]
fn timeval_layout_fits_in_16_bytes() {
    assert_eq!(TIMEVAL_SIZE, 16);
    assert_eq!(TIMEVAL_USEC_OFF, 8);
}

#[test]
fn time_nr_constants_match_linux_x86_64() {
    assert_eq!(NR_CLOCK_GETTIME, 228);
    assert_eq!(NR_GETTIMEOFDAY, 96);
    assert_eq!(NR_NANOSLEEP, 35);
    assert_eq!(NR_CLOCK_GETRES, 229);
    assert_eq!(NR_CLOCK_NANOSLEEP, 230);
}

#[test]
fn p2_closing_nr_constants_match_linux() {
    assert_eq!(NR_SYSINFO, 99);
    assert_eq!(NR_TIMES, 100);
}

#[test]
fn sysinfo_struct_size_covers_x86_64() {
    assert!(SYSINFO_SIZE >= 96, "SYSINFO_SIZE={SYSINFO_SIZE} < 96");
}

#[test]
fn tms_struct_size_covers_x86_64() {
    assert!(TMS_SIZE >= 32, "TMS_SIZE={TMS_SIZE} < 32");
}

#[test]
fn exit_conformance_nr_constants_match_linux_x86_64() {
    assert_eq!(NR_EXIT, 60);
    assert_eq!(NR_EXIT_GROUP, 231);
}

#[test]
fn mmap_conformance_nr_constants_match_linux_x86_64() {
    assert_eq!(NR_MMAP, 9);
    assert_eq!(NR_MUNMAP, 11);
    assert_eq!(MAP_ANONYMOUS, 0x20);
    assert_eq!(MAP_PRIVATE, 0x02);
    assert_eq!(PROT_RW, 0x3);
}

#[test]
fn nr_write_constant_matches_linux_x86_64() {
    assert_eq!(NR_WRITE, 1);
    assert_eq!(NR_EXIT, 60);
    assert_eq!(NR_EXIT_GROUP, 231);
    assert_eq!(NR_MMAP, 9);
    assert_eq!(NR_BRK, 12);
    assert_eq!(NR_GETDENTS64, 217);
    assert_eq!(NR_OPENAT, 257);
    assert_eq!(NR_GETRANDOM, 318);
    assert_eq!(NR_CLOCK_GETTIME, 228);
}

#[test]
fn eisrange_constants() {
    assert_eq!(EFAULT, 14);
    assert_eq!(to_ret(14), -14);
}
