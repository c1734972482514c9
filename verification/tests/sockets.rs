//! Sockets.

use edge_libos::errno::{
    EADDRINUSE, EAFNOSUPPORT, EBADF, ECONNREFUSED, EDESTADDRREQ, EFAULT, EINVAL, EISCONN, ENETUNREACH, ENOTCONN, EPIPE,
    EPROTONOSUPPORT,
};
use edge_libos::fd::{FdTable, Resource, SockAddr};
use edge_libos::host::{FileKind, IoErrorKind};
use edge_libos::kernel::Kernel;
use edge_libos::path::split_steps;
use edge_libos::sys::socket::{
    accept4, accept4_done, accept4_listening, bind, connect, connect_unix_done, connect_v4_done, getpeername,
    getsockname, getsockopt, listen, parse_sockaddr, read_msghdr_iov, recvfrom, recvfrom_done, recvmsg,
    recvmsg_done, sendmsg, sendmsg_done, sendto, sendto_done, setsockopt, shutdown, socket, socket_for_test,
    socketpair, socketpair_done, unix_bind_done, unix_bind_probed, unix_bind_unlinked, AcceptStep, BindStep,
    ConnectStep, NetError, RecvMsgStep, RecvStep, SendMsgStep, SendStep, ShutdownStep, UnixBind, AF_INET,
    AF_UNIX, MSG_DONTWAIT, MSG_PEEK, SOCK_STREAM, SO_ACCEPTCONN, SO_ERROR, SO_KEEPALIVE, SO_REUSEADDR,
};
use edge_libos::vfs::Vfs;

fn page() -> Vec<u8> {
    vec![0u8; 65536]
}

fn get_i32(mem: &[u8], at: usize) -> i32 {
    i32::from_le_bytes(mem[at..at + 4].try_into().unwrap())
}

/// An IPv4 address at `at`.
fn put_v4(mem: &mut [u8], at: usize, addr: [u8; 4], port: u16) {
    mem[at..at + 2].copy_from_slice(&2u16.to_le_bytes());
    mem[at + 2..at + 4].copy_from_slice(&port.to_be_bytes());
    mem[at + 4..at + 8].copy_from_slice(&addr);
}

fn inner(fds: &FdTable, fd: u32) -> u64 {
    match fds.get(fd) {
        Ok(Resource::Socket(n)) => n,
        other => panic!("no socket: {other:?}"),
    }
}

/// A connected IPv4 socket.
fn connected(fds: &mut FdTable) -> i64 {
    let fd = socket(fds, [AF_INET as i64, SOCK_STREAM as i64, 0, 0, 0, 0]);
    assert_eq!(connect_v4_done(fds, fd as u32, [10, 1, 2, 3], 99, Ok(())), 0);
    fd
}

#[test]
fn socket_inet_stream_inserts_fd() {
    let mut fds = FdTable::empty();
    let fd = socket_for_test(&mut fds, AF_INET, SOCK_STREAM).unwrap();
    assert!(fd >= 3);
    assert!(fds.contains(fd));
    fds.close(fd).unwrap();
    assert!(!fds.contains(fd));
}

#[test]
fn socket_unknown_family_returns_eafnosupport() {
    let mut fds = FdTable::empty();
    assert_eq!(socket_for_test(&mut fds, 9999, SOCK_STREAM), Err(-EAFNOSUPPORT));
}

#[test]
fn socket_inet_seqpacket_returns_eprotonosupport() {
    let mut fds = FdTable::empty();
    assert_eq!(socket_for_test(&mut fds, AF_INET, 0o205), Err(-EPROTONOSUPPORT));
}

#[test]
fn listen_without_bind_returns_edestaddrreq() {
    let mut fds = FdTable::empty();
    let fd = socket_for_test(&mut fds, AF_INET, SOCK_STREAM).unwrap();
    let ret = listen(&mut fds, [fd as i64, 5, 0, 0, 0, 0]);
    assert_eq!(ret, -EDESTADDRREQ);
}

#[test]
fn bound_socket_records_address() {
    let mut fds = FdTable::empty();
    let mut mem = page();
    let fd = socket_for_test(&mut fds, AF_INET, SOCK_STREAM).unwrap();
    put_v4(&mut mem, 100, [127, 0, 0, 1], 8080);
    assert!(matches!(bind(&mut fds, &mem, [fd as i64, 100, 16, 0, 0, 0]), BindStep::Done(0)));
    let n = inner(&fds, fd);
    let gs = fds.socket(n);
    match &gs.bound {
        Some(SockAddr::V4 { port, addr }) => {
            assert_eq!(*port, 8080);
            assert_eq!(*addr, [127, 0, 0, 1]);
        }
        other => panic!("expected V4 bound, got {other:?}"),
    }
    assert!(!gs.is_listening(), "not listening yet");
}

#[test]
fn is_listening_requires_both_bind_and_listen() {
    let mut fds = FdTable::empty();
    let fd = socket_for_test(&mut fds, AF_INET, SOCK_STREAM).unwrap();
    let n = inner(&fds, fd);
    let mut gs = fds.take_socket(n);
    assert!(!gs.is_listening());
    gs.bound = Some(SockAddr::V4 { port: 0, addr: [0, 0, 0, 0] });
    assert!(!gs.is_listening(), "bind alone is not listening");
    gs.listen_backlog = Some(128);
    assert!(gs.is_listening(), "bind + listen -> listening");
}

#[test]
fn as_v4_converts_bound_address() {
    let addr = SockAddr::V4 { port: 8080, addr: [192, 168, 1, 1] };
    let v4 = addr.as_v4().expect("V4 -> Some");
    assert_eq!(v4.0, [192, 168, 1, 1]);
    assert_eq!(v4.1, 8080);
    assert!(SockAddr::Unix { path: b"/s".to_vec() }.as_v4().is_none());
}

fn set_option(fd: i64, level: i64, name: i64, fds: &mut FdTable) -> i64 {
    let mut mem = page();
    mem[4096] = 1;
    setsockopt(fds, &mem, [fd, level, name, 4096, 4, 0])
}

#[test]
fn setsockopt_so_reuseaddr_returns_zero() {
    let mut fds = FdTable::empty();
    let fd = socket(&mut fds, [2, 1, 0, 0, 0, 0]);
    assert_eq!(set_option(fd, 1, 2, &mut fds), 0);
}

#[test]
fn setsockopt_tcp_nodelay_returns_zero() {
    let mut fds = FdTable::empty();
    let fd = socket(&mut fds, [2, 1, 0, 0, 0, 0]);
    assert_eq!(set_option(fd, 6, 1, &mut fds), 0);
}

#[test]
fn setsockopt_unknown_returns_zero() {
    let mut fds = FdTable::empty();
    let fd = socket(&mut fds, [2, 1, 0, 0, 0, 0]);
    assert_eq!(set_option(fd, 999, 999, &mut fds), 0);
}

#[test]
fn setsockopt_on_non_socket_returns_ebadf() {
    let vfs = match Vfs::new(Ok(split_steps(b"/"))) {
        Ok(v) => v,
        Err(e) => panic!("no tree: {e}"),
    };
    let mut k = Kernel::new(vec![], vec![], vfs);
    assert_eq!(set_option(0, 1, 2, &mut k.fds), -EBADF);
}

#[test]
fn an_option_is_told_as_it_was_set() {
    let mut fds = FdTable::empty();
    let mut mem = page();
    let fd = socket(&mut fds, [2, 1, 0, 0, 0, 0]);
    for (name, before) in [(SO_REUSEADDR as i64, 0), (SO_KEEPALIVE as i64, 0)] {
        assert_eq!(getsockopt(&mut fds, &mut mem, [fd, 1, name, 200, 204, 0]), 0);
        assert_eq!(get_i32(&mem, 200), before);
        assert_eq!(get_i32(&mem, 204), 4, "the length is told");
        assert_eq!(set_option(fd, 1, name, &mut fds), 0);
        assert_eq!(getsockopt(&mut fds, &mut mem, [fd, 1, name, 200, 204, 0]), 0);
        assert_eq!(get_i32(&mem, 200), 1);
    }
}

#[test]
fn the_last_error_is_told_once() {
    let mut fds = FdTable::empty();
    let mut mem = page();
    let fd = socket(&mut fds, [2, 1, 0, 0, 0, 0]);
    put_v4(&mut mem, 100, [10, 0, 0, 1], 80);
    match connect(&fds, &mem, [fd, 100, 16, 0, 0, 0]) {
        ConnectStep::Inet { addr, port } => {
            let r = connect_v4_done(&mut fds, fd as u32, addr, port, Err(NetError::ConnectionRefused));
            assert_eq!(r, -ECONNREFUSED);
        }
        _ => panic!("the host connects"),
    }
    assert_eq!(getsockopt(&mut fds, &mut mem, [fd, 1, SO_ERROR as i64, 200, 0, 0]), 0);
    assert_eq!(get_i32(&mem, 200) as i64, ECONNREFUSED);
    assert_eq!(getsockopt(&mut fds, &mut mem, [fd, 1, SO_ERROR as i64, 200, 0, 0]), 0);
    assert_eq!(get_i32(&mem, 200), 0);
    let r = connect_v4_done(&mut fds, fd as u32, [1, 1, 1, 1], 1, Err(NetError::NetworkUnreachable));
    assert_eq!(r, -ENETUNREACH);
}

#[test]
fn only_one_connection() {
    let mut fds = FdTable::empty();
    let mut mem = page();
    let fd = connected(&mut fds);
    put_v4(&mut mem, 100, [10, 0, 0, 1], 80);
    assert!(matches!(connect(&fds, &mem, [fd, 100, 16, 0, 0, 0]), ConnectStep::Done(r) if r == -EISCONN));
    mem[300..302].copy_from_slice(&10u16.to_le_bytes());
    assert!(matches!(connect(&fds, &mem, [fd, 300, 28, 0, 0, 0]), ConnectStep::Done(r) if r == -EAFNOSUPPORT));
}

#[test]
fn addresses_read_back() {
    let mut fds = FdTable::empty();
    let mut mem = page();
    let fd = socket(&mut fds, [2, 1, 0, 0, 0, 0]);
    put_v4(&mut mem, 100, [127, 0, 0, 1], 8080);
    assert!(matches!(bind(&mut fds, &mem, [fd, 100, 16, 0, 0, 0]), BindStep::Done(0)));
    mem[300] = 16;
    assert_eq!(getsockname(&fds, &mut mem, [fd, 200, 300, 0, 0, 0]), 0);
    assert_eq!(mem[200..216].to_vec(), mem[100..116].to_vec());
    assert_eq!(
        parse_sockaddr(&mem, 200, 16),
        Ok(SockAddr::V4 { port: 8080, addr: [127, 0, 0, 1] })
    );
    assert_eq!(getpeername(&fds, &mut mem, [fd, 200, 300, 0, 0, 0]), -ENOTCONN);
    let peer = connected(&mut fds);
    assert_eq!(getpeername(&fds, &mut mem, [peer, 200, 300, 0, 0, 0]), 0);
    assert_eq!(
        parse_sockaddr(&mem, 200, 16),
        Ok(SockAddr::V4 { port: 99, addr: [10, 1, 2, 3] })
    );
    assert_eq!(parse_sockaddr(&mem, 0, 16), Err(-EDESTADDRREQ));
    assert_eq!(parse_sockaddr(&mem, 200, 4), Err(-EINVAL));
}

#[test]
fn a_unix_socket_binds_in_steps() {
    let mut fds = FdTable::empty();
    let mut mem = page();
    let fd = socket(&mut fds, [AF_UNIX as i64, 1, 0, 0, 0, 0]);
    mem[100..102].copy_from_slice(&1u16.to_le_bytes());
    mem[102..108].copy_from_slice(b"/tmp/s");
    let path = match bind(&mut fds, &mem, [fd, 100, 9, 0, 0, 0]) {
        BindStep::Probe { path } => path,
        BindStep::Done(r) => panic!("got {r}"),
    };
    assert_eq!(path, b"/tmp/s".to_vec());
    assert_eq!(unix_bind_probed(Ok(FileKind::Socket)), UnixBind::Unlink);
    assert_eq!(unix_bind_probed(Ok(FileKind::File)), UnixBind::Done(-EADDRINUSE));
    assert_eq!(unix_bind_probed(Err(IoErrorKind::NotFound)), UnixBind::Listen);
    assert_eq!(unix_bind_unlinked(Ok(())), UnixBind::Listen);
    assert_eq!(unix_bind_unlinked(Err(IoErrorKind::NotFound)), UnixBind::Listen);
    assert_eq!(unix_bind_unlinked(Err(IoErrorKind::Other)), UnixBind::Done(-EADDRINUSE));
    assert_eq!(unix_bind_done(&mut fds, fd as u32, path, Ok(())), 0);
    assert_eq!(getsockopt(&mut fds, &mut mem, [fd, 1, SO_ACCEPTCONN as i64, 200, 0, 0]), 0);
    assert_eq!(get_i32(&mem, 200), 1, "it has its listener");
    assert_eq!(getsockopt(&mut fds, &mut mem, [fd, 1, SO_ACCEPTCONN as i64, 200, 65534, 0]), -EFAULT);
    assert_eq!(listen(&mut fds, [fd, 4, 0, 0, 0, 0]), 0);
    assert!(matches!(accept4(&mut fds, &mem, [fd, 0, 0, 0, 0, 0]), AcceptStep::AcceptUnix { .. }));
    let c = socket(&mut fds, [AF_UNIX as i64, 1, 0, 0, 0, 0]);
    assert!(matches!(connect(&fds, &mem, [c, 100, 9, 0, 0, 0]), ConnectStep::Unix { .. }));
    assert_eq!(connect_unix_done(&mut fds, c as u32, b"/tmp/s".to_vec(), Err(NetError::NotFound)), -ECONNREFUSED);
    assert_eq!(connect_unix_done(&mut fds, c as u32, b"/tmp/s".to_vec(), Ok(())), 0);
}

#[test]
fn accepting_makes_a_descriptor() {
    let mut fds = FdTable::empty();
    let mut mem = page();
    let fd = socket(&mut fds, [2, 1, 0, 0, 0, 0]);
    let a = [fd, 400, 0, 0o2000000, 0, 0];
    assert!(matches!(accept4(&mut fds, &mem, a), AcceptStep::Done(r) if r < 0), "not listening");
    put_v4(&mut mem, 100, [127, 0, 0, 1], 7000);
    assert!(matches!(bind(&mut fds, &mem, [fd, 100, 16, 0, 0, 0]), BindStep::Done(0)));
    assert_eq!(listen(&mut fds, [fd, 16, 0, 0, 0, 0]), 0);
    match accept4(&mut fds, &mem, a) {
        AcceptStep::Listen { addr, port, .. } => assert_eq!((addr, port), ([127, 0, 0, 1], 7000)),
        other => panic!("{other:?}"),
    }
    let (kind, nonblock) = match accept4_listening(&mut fds, a, true) {
        AcceptStep::Accept { kind, nonblock, .. } => (kind, nonblock),
        other => panic!("{other:?}"),
    };
    let peer = SockAddr::V4 { port: 1234, addr: [9, 8, 7, 6] };
    let new = accept4_done(&mut fds, &mut mem, a, kind, nonblock, Some(peer));
    assert_eq!(new, fd + 1);
    assert!(!nonblock);
    assert!(fds.get_cloexec(new as u32) && !fds.get_cloexec(fd as u32));
    assert_eq!(getsockopt(&mut fds, &mut mem, [fd, 1, SO_ACCEPTCONN as i64, 200, 0, 0]), 0);
    assert_eq!(get_i32(&mem, 200), 1);
    assert_eq!(getsockopt(&mut fds, &mut mem, [new, 1, SO_ACCEPTCONN as i64, 200, 0, 0]), 0);
    assert_eq!(get_i32(&mem, 200), 0);
    assert_eq!(
        parse_sockaddr(&mem, 400, 16),
        Ok(SockAddr::V4 { port: 1234, addr: [9, 8, 7, 6] })
    );
}

#[test]
fn bytes_are_sent_and_received() {
    let mut fds = FdTable::empty();
    let mut mem = page();
    let fd = connected(&mut fds);
    mem[100..103].copy_from_slice(b"abc");
    match sendto(&mut fds, &mem, [fd, 100, 3, 0, 0, 0]) {
        SendStep::Send { unix, bytes, .. } => {
            assert!(!unix);
            assert_eq!(bytes, b"abc".to_vec());
        }
        SendStep::Done(r) => panic!("got {r}"),
    }
    assert!(matches!(sendto(&mut fds, &mem, [fd, 100, 3, 0, 0, 0]), SendStep::Done(r) if r == -ENOTCONN));
    assert_eq!(sendto_done(&mut fds, fd, false, Some(3)), 3);
    let a = [fd, 500, 10, 0, 600, 0];
    match recvfrom(&mut fds, &mut mem, a) {
        RecvStep::Recv { unix, len, .. } => assert_eq!((unix, len), (false, 10)),
        RecvStep::Done(r) => panic!("got {r}"),
    }
    assert_eq!(recvfrom_done(&mut fds, &mut mem, a, false, Some(b"hello".to_vec())), 5);
    assert_eq!(&mem[500..506], b"hello\0");
    assert_eq!(parse_sockaddr(&mem, 600, 16), Ok(SockAddr::V4 { port: 99, addr: [10, 1, 2, 3] }));
}

#[test]
fn shut_halves_stay_shut() {
    let mut fds = FdTable::empty();
    let mut mem = page();
    let fd = connected(&mut fds);
    assert!(matches!(shutdown(&mut fds, [fd, 1, 0, 0, 0, 0]), ShutdownStep::CloseWrite { .. }));
    assert!(matches!(sendto(&mut fds, &mem, [fd, 100, 3, 0, 0, 0]), SendStep::Done(r) if r == -EPIPE));
    assert!(matches!(recvfrom(&mut fds, &mut mem, [fd, 500, 10, 0, 0, 0]), RecvStep::Recv { .. }));
    assert_eq!(recvfrom_done(&mut fds, &mut mem, [fd, 500, 10, 0, 0, 0], false, Some(b"x".to_vec())), 1);
    assert_eq!(shutdown(&mut fds, [fd, 0, 0, 0, 0, 0]), ShutdownStep::Done(0));
    assert_eq!(recvfrom(&mut fds, &mut mem, [fd, 500, 10, 0, 0, 0]), RecvStep::Done(0));
    assert_eq!(shutdown(&mut fds, [fd, 9, 0, 0, 0, 0]), ShutdownStep::Done(-EINVAL));
    assert_eq!(shutdown(&mut fds, [77, 2, 0, 0, 0, 0]), ShutdownStep::Done(-EBADF));
}

/// A message header at 1000 with buffers of 2 and 4 bytes at 100 and 200.
fn message() -> Vec<u8> {
    let mut mem = page();
    mem[1008..1012].copy_from_slice(&1100u32.to_le_bytes());
    mem[1012..1016].copy_from_slice(&2u32.to_le_bytes());
    mem[1100..1104].copy_from_slice(&100u32.to_le_bytes());
    mem[1104..1108].copy_from_slice(&2u32.to_le_bytes());
    mem[1108..1112].copy_from_slice(&200u32.to_le_bytes());
    mem[1112..1116].copy_from_slice(&4u32.to_le_bytes());
    mem
}

#[test]
fn a_message_is_gathered_and_scattered() {
    let mut fds = FdTable::empty();
    let mut mem = message();
    let fd = connected(&mut fds);
    mem[100..102].copy_from_slice(b"ab");
    mem[200..204].copy_from_slice(b"cdef");
    match read_msghdr_iov(&mem, 1000) {
        Ok(m) => {
            assert_eq!(m.payload, b"abcdef".to_vec());
            assert_eq!(m.total, 6);
        }
        Err(e) => panic!("got {e}"),
    }
    match sendmsg(&mut fds, &mem, [fd, 1000, 0, 0, 0, 0]) {
        SendMsgStep::Send { bytes, restore, .. } => {
            assert_eq!(bytes, b"abcdef".to_vec());
            assert_eq!(sendmsg_done(&mut fds, fd, restore, Some(6)), 6);
        }
        SendMsgStep::Done(r) => panic!("got {r}"),
    }
    let a = [fd, 1000, 0, 0, 0, 0];
    match recvmsg(&mut fds, &mut mem, a) {
        RecvMsgStep::Recv { len, spans, restore, .. } => {
            assert_eq!(len, 6);
            assert_eq!(recvmsg_done(&mut fds, &mut mem, a, spans, restore, Some(b"vwxyz".to_vec())), 5);
        }
        RecvMsgStep::Done(r) => panic!("got {r}"),
    }
    assert_eq!(&mem[100..102], b"vw");
    assert_eq!(&mem[200..204], b"xyzf");
}

#[test]
fn peeked_bytes_are_received_afterwards() {
    let mut fds = FdTable::empty();
    let mut mem = message();
    let fd = connected(&mut fds);
    let look = [fd, 1000, MSG_PEEK as i64, 0, 0, 0];
    match recvmsg(&mut fds, &mut mem, look) {
        RecvMsgStep::Recv { spans, restore, .. } => {
            assert_eq!(recvmsg_done(&mut fds, &mut mem, look, spans, restore, Some(b"pq".to_vec())), 2);
        }
        RecvMsgStep::Done(r) => panic!("got {r}"),
    }
    mem[100..102].copy_from_slice(&[0, 0]);
    assert!(matches!(recvmsg(&mut fds, &mut mem, look), RecvMsgStep::Done(2)));
    assert!(matches!(recvmsg(&mut fds, &mut mem, [fd, 1000, 0, 0, 0, 0]), RecvMsgStep::Done(2)));
    assert_eq!(&mem[100..102], b"pq");
    assert!(matches!(recvmsg(&mut fds, &mut mem, [fd, 1000, 0, 0, 0, 0]), RecvMsgStep::Recv { .. }));
}

#[test]
fn peeked_bytes_are_received_by_recvfrom() {
    let mut fds = FdTable::empty();
    let mut mem = message();
    let fd = connected(&mut fds);
    let look = [fd, 1000, MSG_PEEK as i64, 0, 0, 0];
    match recvmsg(&mut fds, &mut mem, look) {
        RecvMsgStep::Recv { spans, restore, .. } => {
            assert_eq!(recvmsg_done(&mut fds, &mut mem, look, spans, restore, Some(b"pqrst".to_vec())), 5);
        }
        RecvMsgStep::Done(r) => panic!("got {r}"),
    }
    assert_eq!(recvfrom(&mut fds, &mut mem, [fd, 500, 3, 0, 600, 620]), RecvStep::Done(3));
    assert_eq!(&mem[500..504], b"pqr\0");
    assert_eq!(parse_sockaddr(&mem, 600, 16), Ok(SockAddr::V4 { port: 99, addr: [10, 1, 2, 3] }));
    assert_eq!(get_i32(&mem, 620), 16);
    assert_eq!(recvfrom(&mut fds, &mut mem, [fd, 500, 10, 0, 0, 0]), RecvStep::Done(2));
    assert_eq!(&mem[500..502], b"st");
    assert!(matches!(recvfrom(&mut fds, &mut mem, [fd, 500, 10, 0, 0, 0]), RecvStep::Recv { .. }));
}

#[test]
fn dontwait_lasts_for_the_call() {
    let mut fds = FdTable::empty();
    let mut mem = message();
    let fd = connected(&mut fds);
    let n = inner(&fds, fd as u32);
    let a = [fd, 1000, MSG_DONTWAIT as i64, 0, 0, 0];
    match recvmsg(&mut fds, &mut mem, a) {
        RecvMsgStep::Recv { spans, restore, .. } => {
            assert!(fds.socket(n).nonblock);
            assert!(recvmsg_done(&mut fds, &mut mem, a, spans, restore, None) < 0);
        }
        RecvMsgStep::Done(r) => panic!("got {r}"),
    }
    assert!(!fds.socket(n).nonblock);
    assert!(fds.socket(n).stream, "the connection comes back");
}

#[test]
fn a_pair_of_sockets() {
    let mut fds = FdTable::empty();
    let mut mem = page();
    let kind = match socketpair(&mem, [AF_UNIX as i64, 1, 0, 700, 0, 0]) {
        Ok(k) => k,
        Err(e) => panic!("got {e}"),
    };
    assert_eq!(socketpair_done(&mut fds, &mut mem, 700, kind, true), 0);
    assert_eq!((get_i32(&mem, 700), get_i32(&mem, 704)), (3, 4));
    assert_eq!(socketpair(&mem, [AF_INET as i64, 1, 0, 700, 0, 0]), Err(-EAFNOSUPPORT));
    assert!(matches!(sendto(&mut fds, &mem, [3, 100, 1, 0, 0, 0]), SendStep::Send { unix: true, .. }));
}
