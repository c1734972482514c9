//! Polling, event queues and event counters.

use edge_libos::errno::{EAGAIN, EBADF, EEXIST, EFAULT, EINVAL, ENOENT};
use edge_libos::fd::{EventFdInner, FdTable, Resource, SockAddr, SocketInner, SocketKind, WakeSource};
use edge_libos::sys::epoll::{
    epoll_create1, epoll_ctl, epoll_pwait, epoll_wait, epoll_woken, EpollStep, EPOLLIN, EPOLL_CTL_ADD,
    EPOLL_CTL_DEL, EPOLL_CTL_MOD,
};
use edge_libos::sys::eventfd::{
    eventfd, eventfd2, eventfd_read, eventfd_read_compat, eventfd_write, eventfd_write_compat, require_u64_buf,
};
use edge_libos::sys::file::{read, ReadStep, WriteStep};
use edge_libos::sys::poll::{
    clear_fd_set, poll, poll_one, poll_woken, ppoll, read_timespec_ms, select, select_woken, set_fd_bit,
    PollStep, SelectStep, WaitEvent, POLLIN, POLLNVAL, POLLOUT,
};

fn page() -> Vec<u8> {
    vec![0u8; 65536]
}

#[test]
fn poll_unknown_fd_returns_pollnval() {
    let fds = FdTable::empty();
    assert_eq!(poll_one(&fds, 9999, POLLIN), POLLNVAL);
}

#[test]
fn poll_negative_fd_returns_pollnval() {
    let fds = FdTable::empty();
    assert_eq!(poll_one(&fds, -1, POLLIN), POLLNVAL);
}

#[test]
fn poll_listener_socket_pollin_returns_pollnval() {
    let mut fds = FdTable::empty();
    let mut s = SocketInner::new(SocketKind::Stream, false);
    s.bound = Some(SockAddr::V4 { port: 8080, addr: [127, 0, 0, 1] });
    s.listen_backlog = Some(5);
    let n = fds.add_socket(s);
    let fd = fds.insert(Resource::Socket(n));
    let r = poll_one(&fds, fd as i32, POLLIN);
    assert_eq!(r, POLLNVAL, "listening socket POLLIN should be POLLNVAL");
}

/// A pipe with one byte in it, and the descriptor of its reading end.
fn ready_pipe(fds: &mut FdTable) -> u32 {
    let n = fds.make_pipe(false);
    let mut p = fds.take_pipe(n);
    p.buf.push_back(b'x');
    fds.put_pipe(n, p);
    fds.insert(Resource::PipeRead(n))
}

#[test]
fn poll_ready_pipe_pollin_returns_pollin() {
    let mut fds = FdTable::empty();
    let fd = ready_pipe(&mut fds);
    let r = poll_one(&fds, fd as i32, POLLIN);
    assert_eq!(r & POLLIN, POLLIN, "ready pipe should report POLLIN");
}

fn put_pollfd(mem: &mut [u8], at: usize, fd: i32, events: i16) {
    mem[at..at + 4].copy_from_slice(&fd.to_le_bytes());
    mem[at + 4..at + 6].copy_from_slice(&events.to_le_bytes());
}

fn revents(mem: &[u8], at: usize) -> i16 {
    i16::from_le_bytes(mem[at + 6..at + 8].try_into().unwrap())
}

#[test]
fn poll_tells_what_is_ready() {
    let mut fds = FdTable::empty();
    let mut mem = page();
    let fd = ready_pipe(&mut fds) as i32;
    put_pollfd(&mut mem, 100, fd, POLLIN);
    put_pollfd(&mut mem, 108, 9999, POLLOUT);
    assert!(matches!(poll(&fds, &mut mem, [100, 2, 0, 0, 0, 0]), PollStep::Done(2)));
    assert_eq!(revents(&mem, 100), POLLIN);
    assert_eq!(revents(&mem, 108), POLLNVAL);
}

#[test]
fn poll_waits_for_a_pipe() {
    let mut fds = FdTable::empty();
    let mut mem = page();
    let n = fds.make_pipe(false);
    let fd = fds.insert(Resource::PipeRead(n)) as i32;
    put_pollfd(&mut mem, 100, fd, POLLIN);
    let w = match poll(&fds, &mut mem, [100, 1, 50, 0, 0, 0]) {
        PollStep::Wait(w) => w,
        PollStep::Done(r) => panic!("got {r}"),
    };
    assert_eq!(w.timeout, Some(50));
    assert_eq!(w.wakes, vec![WakeSource::Pipe(n)]);
    let mut p = fds.take_pipe(n);
    p.buf.push_back(1);
    fds.put_pipe(n, p);
    assert!(matches!(poll_woken(&fds, &mut mem, w, WaitEvent::Woken), PollStep::Done(1)));
    assert_eq!(revents(&mem, 100), POLLIN);
}

#[test]
fn poll_times_out_with_nothing() {
    let mut fds = FdTable::empty();
    let mut mem = page();
    let n = fds.make_pipe(false);
    let fd = fds.insert(Resource::PipeRead(n)) as i32;
    put_pollfd(&mut mem, 100, fd, POLLIN);
    mem[200..208].copy_from_slice(&1i64.to_le_bytes());
    mem[208..216].copy_from_slice(&5_000_000i64.to_le_bytes());
    assert_eq!(read_timespec_ms(&mem, 200), Ok(1005));
    match ppoll(&fds, &mut mem, [100, 1, 200, 0, 0, 0]) {
        PollStep::Wait(w) => {
            assert_eq!(w.timeout, Some(1005));
            assert!(matches!(poll_woken(&fds, &mut mem, w, WaitEvent::TimedOut), PollStep::Done(0)));
        }
        PollStep::Done(r) => panic!("got {r}"),
    }
    assert!(matches!(poll(&fds, &mut mem, [65535, 1, 0, 0, 0, 0]), PollStep::Done(r) if r == -EFAULT));
}

#[test]
fn select_marks_what_is_ready() {
    let mut fds = FdTable::empty();
    let mut mem = page();
    let fd = ready_pipe(&mut fds) as i32;
    set_fd_bit(&mut mem, 300, fd);
    assert_eq!(mem[300], 1 << fd);
    let step = select(&fds, &mut mem, [fd as i64 + 1, 300, 0, 0, 0, 0]);
    assert!(matches!(step, SelectStep::Done(1)));
    assert_eq!(mem[300], 1 << fd);
    clear_fd_set(&mut mem, 300);
    assert!(mem[300..428].iter().all(|b| *b == 0));
}

#[test]
fn select_clears_what_is_not_ready() {
    let mut fds = FdTable::empty();
    let mut mem = page();
    let n = fds.make_pipe(false);
    let fd = fds.insert(Resource::PipeRead(n)) as i32;
    set_fd_bit(&mut mem, 300, fd);
    mem[500..508].copy_from_slice(&1i64.to_le_bytes());
    match select(&fds, &mut mem, [fd as i64 + 1, 300, 0, 0, 500, 0]) {
        SelectStep::Wait(w, s) => {
            let r = select_woken(&fds, &mut mem, w, s, WaitEvent::TimedOut);
            assert!(matches!(r, SelectStep::Done(0)));
        }
        SelectStep::Done(r) => panic!("got {r}"),
    }
    assert_eq!(mem[300], 0);
}

fn put_event(mem: &mut [u8], at: usize, events: u32, data: u64) {
    mem[at..at + 4].copy_from_slice(&events.to_le_bytes());
    mem[at + 4..at + 12].copy_from_slice(&data.to_le_bytes());
}

#[test]
fn an_event_comes_with_its_data() {
    let mut fds = FdTable::empty();
    let mut mem = page();
    let ep = epoll_create1(&mut fds, [0; 6]);
    let fd = ready_pipe(&mut fds) as i64;
    put_event(&mut mem, 100, EPOLLIN, 0xfeed_f00d_dead_beef);
    let add = [ep, EPOLL_CTL_ADD as i64, fd, 100, 0, 0];
    assert_eq!(epoll_ctl(&mut fds, &mem, add), 0);
    assert_eq!(epoll_ctl(&mut fds, &mem, add), -EEXIST);
    assert!(matches!(epoll_wait(&fds, &mut mem, [ep, 400, 4, 0, 0, 0]), EpollStep::Done(1)));
    assert_eq!(u32::from_le_bytes(mem[400..404].try_into().unwrap()), EPOLLIN);
    assert_eq!(u64::from_le_bytes(mem[404..412].try_into().unwrap()), 0xfeed_f00d_dead_beef);
    put_event(&mut mem, 100, EPOLLIN, 7);
    assert_eq!(epoll_ctl(&mut fds, &mem, [ep, EPOLL_CTL_MOD as i64, fd, 100, 0, 0]), 0);
    assert!(matches!(epoll_pwait(&fds, &mut mem, [ep, 400, 4, 0, 0, 0]), EpollStep::Done(1)));
    assert_eq!(mem[404], 7);
    assert_eq!(epoll_ctl(&mut fds, &mem, [ep, EPOLL_CTL_DEL as i64, fd, 0, 0, 0]), 0);
    assert_eq!(epoll_ctl(&mut fds, &mem, [ep, EPOLL_CTL_DEL as i64, fd, 0, 0, 0]), -ENOENT);
    assert!(matches!(epoll_wait(&fds, &mut mem, [ep, 400, 4, 0, 0, 0]), EpollStep::Done(0)));
}

#[test]
fn event_queues_refuse_what_they_cannot_watch() {
    let mut fds = FdTable::empty();
    let mut mem = page();
    assert_eq!(epoll_create1(&mut fds, [1, 0, 0, 0, 0, 0]), -EINVAL);
    let ep = epoll_create1(&mut fds, [0o2000000, 0, 0, 0, 0, 0]);
    assert!(fds.get_cloexec(ep as u32));
    put_event(&mut mem, 100, EPOLLIN, 1);
    assert_eq!(epoll_ctl(&mut fds, &mem, [ep, 1, 4242, 100, 0, 0]), -EBADF);
    assert_eq!(epoll_ctl(&mut fds, &mem, [ep, 9, ep, 100, 0, 0]), -EINVAL);
    assert!(matches!(epoll_wait(&fds, &mut mem, [ep, 400, 0, 0, 0, 0]), EpollStep::Done(r) if r == -EINVAL));
}

#[test]
fn an_event_queue_waits() {
    let mut fds = FdTable::empty();
    let mut mem = page();
    let ep = epoll_create1(&mut fds, [0; 6]);
    let n = fds.make_pipe(false);
    let fd = fds.insert(Resource::PipeRead(n)) as i64;
    put_event(&mut mem, 100, EPOLLIN, 5);
    assert_eq!(epoll_ctl(&mut fds, &mem, [ep, 1, fd, 100, 0, 0]), 0);
    let w = match epoll_wait(&fds, &mut mem, [ep, 400, 4, -1, 0, 0]) {
        EpollStep::Wait(w) => w,
        EpollStep::Done(r) => panic!("got {r}"),
    };
    assert_eq!(w.timeout, None);
    assert_eq!(w.wakes, vec![WakeSource::Never, WakeSource::Epoll(0)]);
    let mut p = fds.take_pipe(n);
    p.buf.push_back(1);
    fds.put_pipe(n, p);
    assert_eq!(epoll_woken(&fds, &mut mem, &w, WaitEvent::Woken), 1);
    assert_eq!(epoll_woken(&fds, &mut mem, &w, WaitEvent::TimedOut), 1, "it looks once more");
}

#[test]
fn eventfd_read_empty_blocking_returns_zero() {
    let mut e = EventFdInner { counter: 0, nonblock: false };
    assert_eq!(eventfd_read(&mut e), Ok(0));
}

#[test]
fn eventfd_read_empty_nonblock_returns_eagain() {
    let mut e = EventFdInner { counter: 0, nonblock: true };
    assert_eq!(eventfd_read(&mut e), Err(-EAGAIN));
}

#[test]
fn eventfd_read_with_value_drains_and_returns() {
    let mut e = EventFdInner { counter: 0, nonblock: false };
    eventfd_write(&mut e, 42);
    assert_eq!(eventfd_read(&mut e), Ok(42));
    assert_eq!(eventfd_read(&mut e), Ok(0));
}

#[test]
fn writes_to_a_counter_add_up() {
    let mut fds = FdTable::empty();
    let mut mem = page();
    let fd = eventfd(&mut fds, [5, 0, 0, 0, 0, 0]);
    mem[600..608].copy_from_slice(&37u64.to_le_bytes());
    assert!(matches!(edge_libos::sys::file::write(&mut fds, &mem, [fd, 600, 8, 0, 0, 0]), WriteStep::Done { ret: 8, .. }));
    assert_eq!(read(&mut fds, &mut mem, [fd, 700, 8, 0, 0, 0]), ReadStep::Done(8));
    assert_eq!(u64::from_le_bytes(mem[700..708].try_into().unwrap()), 42);
    mem[600] = 3;
    let counter = eventfd2(&mut fds, [0; 6]);
    assert_eq!(eventfd_write_compat(&mut fds, &mem, counter as u32, 600, 8), 8);
    assert_eq!(eventfd_read_compat(&mut fds, &mut mem, counter as u32, 700, 8), 8);
    assert_eq!(require_u64_buf(7), Err(-EINVAL));
    assert_eq!(require_u64_buf(8), Ok(()));
    assert_eq!(eventfd_read_compat(&mut fds, &mut mem, 99, 700, 8), -EBADF);
}
