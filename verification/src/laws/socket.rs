//! Sockets: serving, connecting, sending and receiving.

use vstd::prelude::*;
use crate::bytes::le;
use crate::bytes::le_len;
use crate::bytes::le_round_trip;
use crate::bytes::pow256_values;
use crate::errno::EADDRINUSE;
use crate::errno::EAFNOSUPPORT;
use crate::errno::EBADF;
use crate::errno::ECONNREFUSED;
use crate::errno::EDESTADDRREQ;
use crate::errno::EFAULT;
use crate::errno::EINVAL;
use crate::errno::EIO;
use crate::errno::EISCONN;
use crate::errno::ENETUNREACH;
use crate::errno::ENOENT;
use crate::errno::ENOTCONN;
use crate::errno::EOPNOTSUPP;
use crate::errno::EPIPE;
use crate::errno::EPROTONOSUPPORT;
use crate::errno::ETIMEDOUT;
use crate::fd::a_number_is_free;
use crate::fd::AddrModel;
use crate::fd::FdModel;
use crate::fd::Resource;
use crate::fd::SocketKind;
use crate::fd::SocketModel;
use crate::mem::in_bounds;
use crate::mem::splice;
use crate::mem::window;
use crate::mem::word_at;
use crate::sys::file::After;
use crate::sys::socket::accept_after;
use crate::sys::socket::accept_done_after;
use crate::sys::socket::accept_listening_after;
use crate::sys::socket::accept_unix_done_after;
use crate::sys::socket::bind_after;
use crate::sys::socket::connect_step;
use crate::sys::socket::connect_unix_done_after;
use crate::sys::socket::connect_v4_done_after;
use crate::sys::socket::getpeername_after;
use crate::sys::socket::getsockname_after;
use crate::sys::socket::getsockopt_after;
use crate::sys::socket::listen_after;
use crate::sys::socket::recvfrom_after;
use crate::sys::socket::recvfrom_done_after;
use crate::sys::socket::sendto_after;
use crate::sys::socket::setsockopt_after;
use crate::sys::socket::shutdown_after;
use crate::sys::socket::sockaddr_at;
use crate::sys::socket::socket_after;
use crate::sys::socket::socketpair_done_after;
use crate::sys::socket::socketpair_kind;
use crate::sys::socket::unix_bind_done_after;
use crate::sys::socket::AcceptModel;
use crate::sys::socket::ConnectModel;
use crate::sys::socket::NetError;
use crate::sys::socket::RecvStep;
use crate::sys::socket::SendModel;
use crate::sys::socket::ShutdownStep;
use crate::sys::socket::UnixAccept;

verus! {

broadcast use le_len;

/// The socket that `fd` names.
pub open spec fn socket_of(f: FdModel, fd: int) -> SocketModel {
    f.sockets[f.at(fd)->Some_0->Socket_0]
}

/// Whether `fd` names a socket.
pub open spec fn is_socket(f: FdModel, fd: int) -> bool {
    f.at(fd) is Some && f.at(fd)->Some_0 is Socket
}

/// Whether a socket has the connection of its family.
pub open spec fn is_connected(s: SocketModel) -> bool {
    (s.family_unix && s.stream_unix) || (!s.family_unix && s.stream)
}

/// Whether `g` is `f` with one more descriptor, the lowest that was free from three on,
/// for a socket that was not there; every other descriptor and object is as it was.
pub open spec fn one_socket_more(f: FdModel, g: FdModel, fd: int) -> bool {
    &&& 3 <= fd <= u32::MAX
    &&& f.at(fd) is None
    &&& forall|k: int| 3 <= k < fd ==> #[trigger] f.at(k) is Some
    &&& g.at(fd) matches Some(Resource::Socket(n)) && {
        &&& !f.sockets.contains_key(n)
        &&& forall|k: u64| k != n ==> (#[trigger] g.sockets.contains_key(k)
            == f.sockets.contains_key(k))
        &&& g.pipes == f.pipes && g.files == f.files && g.epolls == f.epolls && g.eventfds
            == f.eventfds
    }
    &&& forall|k: u32| k != fd ==> #[trigger] g.at(k as int) == f.at(k as int)
    &&& forall|k: u32|
        k != fd && f.slots.contains_key(k) ==> #[trigger] g.slots[k] == f.slots[k]
}

/// A socket that was made has the lowest free descriptor, the kind and the family that
/// were asked for, does not block where 0o4000 is in its type, and is neither bound, nor
/// listening, nor connected.
pub proof fn a_new_socket_is_fresh(f: FdModel, a: [i64; 6])
    requires
        f.wf(),
    ensures
        ({
            let (r, g) = socket_after(f, a);
            let family = a[0] as i32;
            let kind = (a[1] as i32) & 0xf;
            let known = family == 1 || family == 2 || family == 10;
            &&& !known ==> r == -EAFNOSUPPORT && g == f
            &&& known && kind != 1 && kind != 2 ==> r == -EPROTONOSUPPORT && g == f
            &&& known && (kind == 1 || kind == 2) ==> {
                let s = socket_of(g, r);
                &&& one_socket_more(f, g, r)
                &&& forall|n: u64| f.sockets.contains_key(n) ==> #[trigger] g.sockets[n]
                    == f.sockets[n]
                &&& s.kind == (if kind == 1 {
                    SocketKind::Stream
                } else {
                    SocketKind::Datagram
                })
                &&& s.family_unix == (family == 1)
                &&& s.nonblock == ((a[1] as i32) & 0o4000 != 0)
                &&& s.bound is None && s.listen_backlog is None && !s.stream && !s.stream_unix
                    && s.peer_addr is None && s.peer_path is None && !s.shut_rd && !s.shut_wr
                    && s.last_error == 0 && s.peek_buf.len() == 0 && !s.so_reuseaddr
                    && !s.so_keepalive && !s.tcp_nodelay && !s.is_acceptor
            }
        }),
{
    a_number_is_free(f, 3);
}

/// What `accept4` says of a listening internet socket: without a host listener it asks
/// for one at the bound address; with one it asks to take a connection, with the socket's
/// kind, that does not block where the flags hold 0o4000 or the socket itself does not
/// block.
pub proof fn a_listening_socket_accepts(f: FdModel, m: Seq<u8>, a: [i64; 6], n: u64, listens: bool)
    requires
        f.at(a[0] as int) == Some(Resource::Socket(n)),
        a[1] == 0 || in_bounds(m.len(), a[1] as int, 16),
        a[2] == 0 || in_bounds(m.len(), a[2] as int, 4),
        !f.sockets[n].family_unix,
    ensures
        ({
            let s = f.sockets[n];
            let (step, g) = accept_after(f, m, a);
            let (step2, g2) = accept_listening_after(f, a, listens);
            let take = AcceptModel::Accept {
                socket: n,
                kind: s.kind,
                nonblock: s.nonblock || (a[3] as i32) & 0o4000 != 0,
            };
            &&& s.bound is None || s.listen_backlog is None ==> step == AcceptModel::Done(-EINVAL)
                && g == f
            &&& s.listen_backlog is Some ==> (s.bound matches Some(addr) ==> match addr {
                AddrModel::V4 { port, addr } => {
                    &&& s.listener ==> step == take && g.slots == f.slots
                    &&& !s.listener ==> step == (AcceptModel::Listen { socket: n, addr, port }) && g
                        == f
                },
                _ => step == AcceptModel::Done(-EOPNOTSUPP) && g == f,
            })
            &&& listens ==> step2 == take && g2.slots == f.slots && (s.is_acceptor || !s.listener ==>
                g2.sockets[n].is_acceptor)
            &&& !listens ==> step2 == AcceptModel::Done(-EADDRINUSE) && g2 == f
        }),
{
}

/// A connection that was accepted is a socket of its own: it has the lowest free
/// descriptor, it is connected to the peer, and it is closed on exec where the flags hold
/// 0o2000000. The listening socket can accept again.
pub proof fn an_accepted_socket_is_connected(
    f: FdModel,
    m: Seq<u8>,
    a: [i64; 6],
    kind: SocketKind,
    nonblock: bool,
    port: u16,
    addr: Seq<u8>,
    n: u64,
)
    requires
        f.wf(),
        f.at(a[0] as int) == Some(Resource::Socket(n)),
        addr.len() == 4,
    ensures
        ({
            let r = accept_done_after(f, m, a, kind, nonblock, Some(AddrModel::V4 { port, addr }));
            let g = r.fds;
            let s = socket_of(g, r.ret);
            &&& one_socket_more(f, g, r.ret)
            &&& s.stream
            &&& !s.family_unix
            &&& s.peer_addr == Some(AddrModel::V4 { port, addr })
            &&& s.kind == kind
            &&& s.nonblock == nonblock
            &&& !s.shut_rd && !s.shut_wr && s.peek_buf.len() == 0 && s.bound is None
                && s.listen_backlog is None && s.last_error == 0
            &&& g.slots[r.ret as u32].cloexec == ((a[3] as i32) & 0o2000000 != 0)
            &&& g.at(a[0] as int) == Some(Resource::Socket(n))
            &&& g.sockets[n].listener
            &&& g.sockets[n].bound == f.sockets[n].bound
            &&& g.sockets[n].listen_backlog == f.sockets[n].listen_backlog
            &&& g.sockets[n].nonblock == f.sockets[n].nonblock
            &&& forall|k: u64|
                k != n && f.sockets.contains_key(k) ==> #[trigger] g.sockets[k] == f.sockets[k]
        }),
{
    a_number_is_free(f, 3);
    assert(f.slots.contains_key(a[0] as u32));
    assert(crate::fd::alive(f, f.slots[a[0] as u32].res));
}

/// Of an accepted connection the address goes to the second argument and its length, 16,
/// to the third, where these are not zero: family 2, the port with its high byte first,
/// and the four bytes of the address.
pub proof fn an_accepted_peer_is_told(
    f: FdModel,
    m: Seq<u8>,
    a: [i64; 6],
    kind: SocketKind,
    nonblock: bool,
    port: u16,
    addr: Seq<u8>,
)
    requires
        addr.len() == 4,
        a[1] == 0 || in_bounds(m.len(), a[1] as int, 16),
        a[2] == 0 || in_bounds(m.len(), a[2] as int, 4),
        a[1] == 0 || a[2] == 0 || a[1] + 16 <= a[2] || a[2] + 4 <= a[1],
    ensures
        ({
            let r = accept_done_after(f, m, a, kind, nonblock, Some(AddrModel::V4 { port, addr }));
            &&& a[1] != 0 ==> v4_told(r.mem, a[1] as int, port, addr)
            &&& a[2] != 0 ==> word_at(r.mem, a[2] as int, 4) == 16
            &&& r.mem.len() == m.len()
            &&& forall|k: int|
                0 <= k < m.len() && !(a[1] != 0 && a[1] <= k < a[1] + 16) && !(a[2] != 0 && a[2]
                    <= k < a[2] + 4) ==> #[trigger] r.mem[k] == m[k]
        }),
{
    told_address(m, a[1] as int, a[2] as int, port, addr);
}

/// Without a connection, accepting fails and changes nothing.
pub proof fn a_failed_accept_opens_nothing(
    f: FdModel,
    m: Seq<u8>,
    a: [i64; 6],
    kind: SocketKind,
    nonblock: bool,
)
    ensures
        accept_done_after(f, m, a, kind, nonblock, None) == (After { ret: -EIO, fds: f, mem: m }),
{
}

/// Whether the `struct sockaddr_in` at `ptr` holds the port and the address.
pub open spec fn v4_told(m: Seq<u8>, ptr: int, port: u16, addr: Seq<u8>) -> bool {
    &&& m[ptr] == 2 && m[ptr + 1] == 0
    &&& m[ptr + 2] == port / 256
    &&& m[ptr + 3] == port % 256
    &&& forall|i: int| 0 <= i < 4 ==> #[trigger] m[ptr + 4 + i] == addr[i]
    &&& forall|i: int| 8 <= i < 16 ==> #[trigger] m[ptr + i] == 0
}

proof fn two_bytes()
    ensures
        le(2, 2) == seq![2u8, 0u8],
        le(1, 2) == seq![1u8, 0u8],
{
    reveal_with_fuel(le, 3);
    assert(le(2, 2) =~= seq![2u8, 0u8]);
    assert(le(1, 2) =~= seq![1u8, 0u8]);
}

proof fn told_address(m: Seq<u8>, addr_ptr: int, len_ptr: int, port: u16, addr: Seq<u8>)
    requires
        addr.len() == 4,
        addr_ptr == 0 || in_bounds(m.len(), addr_ptr, 16),
        len_ptr == 0 || in_bounds(m.len(), len_ptr, 4),
        addr_ptr == 0 || len_ptr == 0 || addr_ptr + 16 <= len_ptr || len_ptr + 4 <= addr_ptr,
    ensures
        ({
            let after = crate::sys::socket::addr_written(
                m,
                addr_ptr,
                len_ptr,
                crate::sys::socket::v4_image(port, addr),
                16,
            );
            &&& addr_ptr != 0 ==> v4_told(after, addr_ptr, port, addr)
            &&& len_ptr != 0 ==> word_at(after, len_ptr, 4) == 16
            &&& after.len() == m.len()
            &&& forall|k: int|
                0 <= k < m.len() && !(addr_ptr != 0 && addr_ptr <= k < addr_ptr + 16) && !(len_ptr
                    != 0 && len_ptr <= k < len_ptr + 4) ==> #[trigger] after[k] == m[k]
        }),
{
    two_bytes();
    let image = crate::sys::socket::v4_image(port, addr);
    let after = crate::sys::socket::addr_written(m, addr_ptr, len_ptr, image, 16);
    assert(image.len() == 16);
    assert(image[0] == 2 && image[1] == 0 && image[2] == port / 256 && image[3] == port % 256);
    assert forall|i: int| 0 <= i < 4 implies #[trigger] image[4 + i] == addr[i] by {}
    pow256_values();
    le_round_trip(16, 4);
    if addr_ptr != 0 {
        assert forall|i: int| 0 <= i < 16 implies #[trigger] after[addr_ptr + i] == image[i] by {}
        assert(after[addr_ptr + 0] == image[0]);
        assert forall|i: int| 0 <= i < 4 implies #[trigger] after[addr_ptr + 4 + i] == addr[i] by {
            assert(after[addr_ptr + (4 + i)] == image[4 + i]);
        }
    }
    if len_ptr != 0 {
        assert(window(after, len_ptr, 4) =~= le(16, 4));
    }
}

/// A connected socket can be used: sending hands its bytes to the host and receiving asks
/// the host for as many as fit, and neither says that it is not connected. This holds of
/// a socket that was accepted, connected or made in a pair alike.
pub proof fn a_connected_socket_sends_and_receives(
    f: FdModel,
    m: Seq<u8>,
    a: [i64; 6],
    n: u64,
)
    requires
        f.at(a[0] as int) == Some(Resource::Socket(n)),
        is_connected(f.sockets[n]),
        in_bounds(m.len(), a[1] as int, a[2] as int),
    ensures
        ({
            let s = f.sockets[n];
            let (step, g) = sendto_after(f, m, a);
            if s.shut_wr {
                step == SendModel::Done(-EPIPE) && g == f
            } else {
                &&& step == (SendModel::Send {
                    socket: n,
                    unix: s.family_unix,
                    bytes: m.subrange(a[1] as int, a[1] + a[2]),
                })
                &&& g.slots == f.slots
            }
        }),
        ({
            let s = f.sockets[n];
            let r = recvfrom_after(f, m, a);
            let there = s.family_unix || ((a[4] == 0 || in_bounds(m.len(), a[4] as int, 16)) && (
            a[5] == 0 || in_bounds(m.len(), a[5] as int, 4)));
            &&& a[2] > 0 && a[2] <= usize::MAX && there && !s.shut_rd && s.peek_buf.len() == 0 ==> r.step == (
            RecvStep::Recv { socket: n, unix: s.family_unix, len: a[2] as usize }) && r.mem == m
                && r.fds.slots == f.slots
            &&& a[2] > 0 && there && s.shut_rd ==> r.step == RecvStep::Done(0) && r.mem == m && r.fds
                == f
        }),
{
}

/// A socket without a connection neither sends nor receives.
pub proof fn an_unconnected_socket_refuses(f: FdModel, m: Seq<u8>, a: [i64; 6], n: u64)
    requires
        f.at(a[0] as int) == Some(Resource::Socket(n)),
        !is_connected(f.sockets[n]),
        in_bounds(m.len(), a[1] as int, a[2] as int),
    ensures
        ({
            let s = f.sockets[n];
            let (step, g) = sendto_after(f, m, a);
            &&& g == f
            &&& step == SendModel::Done(
                if s.shut_wr {
                    -EPIPE
                } else {
                    -ENOTCONN
                },
            )
        }),
        ({
            let s = f.sockets[n];
            let r = recvfrom_after(f, m, a);
            let there = s.family_unix || ((a[4] == 0 || in_bounds(m.len(), a[4] as int, 16)) && (
            a[5] == 0 || in_bounds(m.len(), a[5] as int, 4)));
            a[2] > 0 && there && s.peek_buf.len() == 0 ==> r.fds == f && r.mem == m && r.step
                == RecvStep::Done(
                if s.shut_rd {
                    0
                } else {
                    (-ENOTCONN) as i64
                },
            )
        }),
{
}

/// Sending and receiving are refused on what is no socket and on a buffer outside of the
/// memory; nothing changes then.
pub proof fn a_transfer_is_refused(f: FdModel, m: Seq<u8>, a: [i64; 6])
    ensures
        !is_socket(f, a[0] as int) ==> sendto_after(f, m, a) == (SendModel::Done(-EBADF), f),
        !is_socket(f, a[0] as int) ==> recvfrom_after(f, m, a).step == RecvStep::Done(
            (-EBADF) as i64,
        ) && recvfrom_after(f, m, a).fds == f && recvfrom_after(f, m, a).mem == m,
        is_socket(f, a[0] as int) && !in_bounds(m.len(), a[1] as int, a[2] as int) ==> sendto_after(
            f,
            m,
            a,
        ) == (SendModel::Done(-EFAULT), f),
        is_socket(f, a[0] as int) && a[2] == 0 ==> recvfrom_after(f, m, a).step == RecvStep::Done(
            (-EINVAL) as i64,
        ) && recvfrom_after(f, m, a).fds == f && recvfrom_after(f, m, a).mem == m,
        is_socket(f, a[0] as int) && a[2] != 0 && !in_bounds(m.len(), a[1] as int, a[2] as int)
            ==> recvfrom_after(f, m, a).step == RecvStep::Done((-EFAULT) as i64) && recvfrom_after(
            f,
            m,
            a,
        ).fds == f && recvfrom_after(f, m, a).mem == m,
{
}

/// The bytes that came are put into the buffer in order, the answer is their number, and
/// the socket is connected again. Of an internet socket the peer goes to the last two
/// arguments, where they are not zero.
pub proof fn received_bytes_arrive(
    f: FdModel,
    m: Seq<u8>,
    a: [i64; 6],
    n: u64,
    unix: bool,
    d: Seq<u8>,
)
    requires
        f.at(a[0] as int) == Some(Resource::Socket(n)),
        f.sockets.contains_key(n),
        d.len() <= a[2],
        in_bounds(m.len(), a[1] as int, a[2] as int),
        unix || (a[4] == 0 && a[5] == 0) || {
            &&& in_bounds(m.len(), a[4] as int, 16)
            &&& in_bounds(m.len(), a[5] as int, 4)
            &&& a[4] != 0 && a[5] != 0
            &&& a[4] + 16 <= a[5] || a[5] + 4 <= a[4]
            &&& a[4] + 16 <= a[1] || a[1] + a[2] <= a[4]
            &&& a[5] + 4 <= a[1] || a[1] + a[2] <= a[5]
            &&& f.sockets[n].peer_addr matches Some(AddrModel::V4 { addr, .. }) && addr.len() == 4
        },
    ensures
        ({
            let r = recvfrom_done_after(f, m, a, unix, Some(d));
            let s = r.fds.sockets[n];
            &&& r.ret == d.len()
            &&& forall|i: int| 0 <= i < d.len() ==> #[trigger] r.mem[a[1] + i] == d[i]
            &&& !unix && a[4] != 0 ==> (f.sockets[n].peer_addr matches Some(
                AddrModel::V4 { port, addr },
            ) && v4_told(r.mem, a[4] as int, port, addr) && word_at(r.mem, a[5] as int, 4) == 16)
            &&& unix || a[4] == 0 ==> forall|k: int|
                0 <= k < m.len() && !(a[1] <= k < a[1] + d.len()) ==> #[trigger] r.mem[k] == m[k]
            &&& r.mem.len() == m.len()
            &&& r.fds.slots == f.slots
            &&& unix ==> s.stream_unix
            &&& !unix ==> s.stream
        }),
{
    let m1 = splice(m, a[1] as int, d);
    let r = recvfrom_done_after(f, m, a, unix, Some(d));
    assert forall|i: int| 0 <= i < d.len() implies #[trigger] m1[a[1] + i] == d[i] by {}
    if !unix && a[4] != 0 {
        let (port, addr) = match f.sockets[n].peer_addr {
            Some(AddrModel::V4 { port, addr }) => (port, addr),
            _ => (0u16, Seq::empty()),
        };
        told_address(m1, a[4] as int, a[5] as int, port, addr);
        assert forall|i: int| 0 <= i < d.len() implies #[trigger] r.mem[a[1] + i] == d[i] by {
            assert(r.mem[a[1] + i] == m1[a[1] + i]);
        }
    }
}

/// Bytes that could not be received are an error; the socket is connected again.
pub proof fn a_failed_receive_changes_no_memory(
    f: FdModel,
    m: Seq<u8>,
    a: [i64; 6],
    n: u64,
    unix: bool,
)
    requires
        f.at(a[0] as int) == Some(Resource::Socket(n)),
    ensures
        recvfrom_done_after(f, m, a, unix, None).ret == -EIO,
        recvfrom_done_after(f, m, a, unix, None).mem == m,
        unix ==> recvfrom_done_after(f, m, a, unix, None).fds.sockets[n].stream_unix,
        !unix ==> recvfrom_done_after(f, m, a, unix, None).fds.sockets[n].stream,
{
}

/// A connection that the host made to an IPv4 address connects the socket to it, and a
/// failed one leaves the socket as it was, but for the error that is recorded of it.
#[verifier::rlimit(60)]
pub proof fn connecting_connects(
    f: FdModel,
    fd: u32,
    n: u64,
    addr: Seq<u8>,
    port: u16,
    outcome: Result<(), NetError>,
)
    requires
        f.at(fd as int) == Some(Resource::Socket(n)),
    ensures
        ({
            let (r, g) = connect_v4_done_after(f, fd, addr, port, outcome);
            let s = f.sockets[n];
            let t = g.sockets[n];
            &&& g.slots == f.slots
            &&& forall|k: u64| k != n && f.sockets.contains_key(k) ==> #[trigger] g.sockets[k]
                == f.sockets[k]
            &&& outcome is Ok ==> {
                &&& r == 0
                &&& t.stream
                &&& t.peer_addr == Some(AddrModel::V4 { port, addr })
                &&& t.last_error == s.last_error
            }
            &&& (outcome matches Err(e) ==> {
                &&& r == -(match e {
                    NetError::ConnectionRefused => ECONNREFUSED,
                    NetError::AddrInUse => EADDRINUSE,
                    NetError::TimedOut => ETIMEDOUT,
                    NetError::NetworkUnreachable => ENETUNREACH,
                    _ => EIO,
                })
                &&& t.last_error == -r
                &&& t.stream == s.stream && t.peer_addr == s.peer_addr
            })
            &&& t.bound == s.bound && t.nonblock == s.nonblock && t.shut_rd == s.shut_rd
                && t.shut_wr == s.shut_wr && t.family_unix == s.family_unix && t.kind == s.kind
                && t.peek_buf == s.peek_buf
        }),
{
    let (r, g) = connect_v4_done_after(f, fd, addr, port, outcome);
    let s = f.sockets[n];
    match outcome {
        Ok(_) => {
            let t = SocketModel { stream: true, peer_addr: Some(AddrModel::V4 { port, addr }), ..s };
            assert(g == f.with_socket(n, t));
            assert(g.sockets[n] == t);
        },
        Err(e) => {
            let t = SocketModel {
                last_error: crate::sys::socket::connect_errno(e) as i32,
                ..s
            };
            assert(g == f.with_socket(n, t));
            assert(g.sockets[n] == t);
        },
    }
}

/// A connection that the host made to a path connects the socket to it.
pub proof fn connecting_to_a_path_connects(
    f: FdModel,
    fd: u32,
    n: u64,
    path: Seq<u8>,
    outcome: Result<(), NetError>,
)
    requires
        f.at(fd as int) == Some(Resource::Socket(n)),
    ensures
        ({
            let (r, g) = connect_unix_done_after(f, fd, path, outcome);
            let t = g.sockets[n];
            &&& outcome is Ok ==> r == 0 && t.stream_unix && t.peer_path == Some(path) && g.slots
                == f.slots && t.family_unix == f.sockets[n].family_unix && t.shut_rd
                == f.sockets[n].shut_rd && t.shut_wr == f.sockets[n].shut_wr && t.peek_buf
                == f.sockets[n].peek_buf
            &&& outcome == Err::<(), NetError>(NetError::NotFound) ==> r == -ECONNREFUSED && g == f
            &&& (outcome matches Err(e) ==> e != NetError::NotFound ==> r == -EIO && g == f)
        }),
{
}

/// `connect` asks the host for a connection to the address in its record, unless the
/// socket is connected already.
pub proof fn connecting_asks_for_the_address(f: FdModel, m: Seq<u8>, a: [i64; 6], n: u64)
    requires
        f.at(a[0] as int) == Some(Resource::Socket(n)),
    ensures
        match sockaddr_at(m, a[1] as int, a[2] as int) {
            Err(e) => connect_step(f, m, a) == ConnectModel::Done(e as int),
            Ok(AddrModel::V4 { port, addr }) => connect_step(f, m, a) == (if f.sockets[n].stream {
                ConnectModel::Done(-EISCONN)
            } else {
                ConnectModel::Inet { addr, port }
            }),
            Ok(AddrModel::V6 { .. }) => connect_step(f, m, a) == ConnectModel::Done(-EAFNOSUPPORT),
            Ok(AddrModel::Unix { path }) => connect_step(f, m, a) == (
            if !f.sockets[n].family_unix {
                ConnectModel::Done(-EOPNOTSUPP)
            } else if f.sockets[n].stream_unix {
                ConnectModel::Done(-EISCONN)
            } else {
                ConnectModel::Unix { path }
            }),
        },
{
}

/// The record of an internet address: its family is two, the port has its high byte
/// first, and the four bytes of the address follow.
pub proof fn an_address_is_read(m: Seq<u8>, ptr: int, len: int)
    requires
        ptr != 0,
        len != 0,
        0 <= len <= usize::MAX,
        in_bounds(m.len(), ptr, 16),
        m[ptr] == 2,
        m[ptr + 1] == 0,
    ensures
        len < 16 ==> sockaddr_at(m, ptr, len) == Err::<AddrModel, i64>((-EINVAL) as i64),
        len >= 16 ==> (sockaddr_at(m, ptr, len) matches Ok(AddrModel::V4 { port, addr }) && {
            &&& port == m[ptr + 2] * 256 + m[ptr + 3]
            &&& addr.len() == 4
            &&& forall|i: int| 0 <= i < 4 ==> #[trigger] addr[i] == m[ptr + 4 + i]
        }),
{
    let w = window(m, ptr, 2);
    assert(w =~= seq![2u8, 0u8]);
    reveal_with_fuel(crate::bytes::le_value, 3);
    assert(w.drop_first() =~= seq![0u8]);
    assert(w.drop_first().drop_first() =~= Seq::<u8>::empty());
}

/// A socket that was bound tells the address it was bound to, and after `listen` it
/// listens there.
pub proof fn a_bound_socket_tells_its_address(
    f: FdModel,
    m: Seq<u8>,
    a: [i64; 6],
    later: Seq<u8>,
    b: [i64; 6],
    n: u64,
    port: u16,
    addr: Seq<u8>,
)
    requires
        f.wf(),
        f.at(a[0] as int) == Some(Resource::Socket(n)),
        !f.sockets[n].family_unix,
        sockaddr_at(m, a[1] as int, a[2] as int) == Ok::<AddrModel, i64>(
            AddrModel::V4 { port, addr },
        ),
        addr.len() == 4,
        b[0] == a[0],
        b[1] != 0 && in_bounds(later.len(), b[1] as int, 16),
        b[2] == 0 || in_bounds(later.len(), b[2] as int, 4),
        b[2] == 0 || b[1] + 16 <= b[2] || b[2] + 4 <= b[1],
    ensures
        ({
            let (r, g) = bind_after(f, m, a);
            let (told, after) = getsockname_after(g, later, b);
            &&& r == Ok::<int, Seq<u8>>(0)
            &&& g.slots == f.slots
            &&& told == 0
            &&& v4_told(after, b[1] as int, port, addr)
            &&& b[2] != 0 ==> word_at(after, b[2] as int, 4) == 16
            &&& g.sockets[n].bound == Some(AddrModel::V4 { port, addr })
            &&& g.sockets[n].listen_backlog == f.sockets[n].listen_backlog
        }),
{
    told_address(later, b[1] as int, b[2] as int, port, addr);
}

/// A bound socket listens after `listen`, with the backlog it was given; one that is not
/// bound does not, and a negative backlog is refused.
pub proof fn a_bound_socket_listens(f: FdModel, a: [i64; 6], n: u64)
    requires
        f.at(a[0] as int) == Some(Resource::Socket(n)),
    ensures
        ({
            let (r, g) = listen_after(f, a);
            let s = f.sockets[n];
            let t = g.sockets[n];
            &&& a[1] < 0 ==> r == -EINVAL && g == f
            &&& a[1] >= 0 && s.bound is None ==> r == -EDESTADDRREQ && g == f
            &&& a[1] >= 0 && s.bound is Some ==> r == 0 && t.listen_backlog is Some && t.bound
                == s.bound && g.slots == f.slots && t.stream == s.stream && t.family_unix
                == s.family_unix && t.nonblock == s.nonblock && t.listener == s.listener
                && t.unix_listener == s.unix_listener
            &&& 0 <= a[1] <= i32::MAX && s.bound is Some ==> t.listen_backlog == Some(a[1] as i32)
        }),
{
}

/// `getpeername` tells the address of the peer of a connected internet socket, and says
/// that a socket is not connected where it has no peer.
pub proof fn a_peer_is_told(f: FdModel, m: Seq<u8>, a: [i64; 6], n: u64)
    requires
        f.at(a[0] as int) == Some(Resource::Socket(n)),
        !f.sockets[n].family_unix,
        a[1] != 0 && in_bounds(m.len(), a[1] as int, 16),
        a[2] == 0 || in_bounds(m.len(), a[2] as int, 4),
        a[2] == 0 || a[1] + 16 <= a[2] || a[2] + 4 <= a[1],
    ensures
        ({
            let (r, after) = getpeername_after(f, m, a);
            match f.sockets[n].peer_addr {
                None => r == -ENOTCONN && after == m,
                Some(AddrModel::V4 { port, addr }) => addr.len() == 4 ==> {
                    &&& r == 0
                    &&& v4_told(after, a[1] as int, port, addr)
                    &&& a[2] != 0 ==> word_at(after, a[2] as int, 4) == 16
                    &&& forall|k: int|
                        0 <= k < m.len() && !(a[1] <= k < a[1] + 16) && !(a[2] != 0 && a[2] <= k
                            < a[2] + 4) ==> #[trigger] after[k] == m[k]
                },
                Some(_) => r == -EINVAL && after == m,
            }
        }),
{
    if let Some(AddrModel::V4 { port, addr }) = f.sockets[n].peer_addr {
        if addr.len() == 4 {
            told_address(m, a[1] as int, a[2] as int, port, addr);
        }
    }
}

/// Serving, from one end to the other: what accepting gives can at once be received from
/// and sent to, and it tells the peer.
pub proof fn an_accepted_socket_serves(
    f: FdModel,
    m: Seq<u8>,
    a: [i64; 6],
    kind: SocketKind,
    nonblock: bool,
    port: u16,
    addr: Seq<u8>,
    n: u64,
    b: [i64; 6],
    later: Seq<u8>,
)
    requires
        f.wf(),
        f.at(a[0] as int) == Some(Resource::Socket(n)),
        addr.len() == 4,
        ({
            let r = accept_done_after(f, m, a, kind, nonblock, Some(AddrModel::V4 { port, addr }));
            b[0] == r.ret
        }),
        b[2] > 0,
        b[2] <= usize::MAX,
        in_bounds(later.len(), b[1] as int, b[2] as int),
        b[4] == 0 && b[5] == 0,
    ensures
        ({
            let r = accept_done_after(f, m, a, kind, nonblock, Some(AddrModel::V4 { port, addr }));
            &&& recvfrom_after(r.fds, later, b).step is Recv
            &&& sendto_after(r.fds, later, b).0 matches SendModel::Send { bytes, .. } && bytes
                == later.subrange(b[1] as int, b[1] + b[2])
            &&& b[1] != 0 && b[2] >= 16 ==> getpeername_after(
                r.fds,
                later,
                [b[0], b[1], 0, 0, 0, 0],
            ).0 == 0 && v4_told(
                getpeername_after(r.fds, later, [b[0], b[1], 0, 0, 0, 0]).1,
                b[1] as int,
                port,
                addr,
            )
        }),
{
    an_accepted_socket_is_connected(f, m, a, kind, nonblock, port, addr, n);
    let r = accept_done_after(f, m, a, kind, nonblock, Some(AddrModel::V4 { port, addr }));
    let k = r.fds.at(r.ret)->Some_0->Socket_0;
    a_connected_socket_sends_and_receives(r.fds, later, b, k);
    if b[1] != 0 && b[2] >= 16 {
        a_peer_is_told(r.fds, later, [b[0], b[1], 0, 0, 0, 0], k);
    }
}

/// A Unix connection that was accepted is a socket of its own, connected to the peer, and
/// the listening socket stays as it is.
pub proof fn an_accepted_unix_socket_is_connected(
    f: FdModel,
    m: Seq<u8>,
    a: [i64; 6],
    path: Option<Vec<u8>>,
)
    requires
        f.wf(),
    ensures
        ({
            let r = accept_unix_done_after(f, m, a, UnixAccept::Connected(path));
            let s = socket_of(r.fds, r.ret);
            &&& one_socket_more(f, r.fds, r.ret)
            &&& is_connected(s) && s.family_unix
            &&& s.peer_path == crate::fd::bytes_view(path)
            &&& s.nonblock == ((a[3] as i32) & 0o4000 != 0)
            &&& !s.shut_rd && !s.shut_wr && s.peek_buf.len() == 0
            &&& r.fds.slots[r.ret as u32].cloexec == ((a[3] as i32) & 0o2000000 != 0)
            &&& forall|k: u64| f.sockets.contains_key(k) ==> #[trigger] r.fds.sockets[k]
                == f.sockets[k]
        }),
{
    a_number_is_free(f, 3);
}

/// A Unix socket accepts where it is bound, listens and has a host listener.
pub proof fn a_listening_unix_socket_accepts(f: FdModel, m: Seq<u8>, a: [i64; 6], n: u64)
    requires
        f.at(a[0] as int) == Some(Resource::Socket(n)),
        f.sockets[n].family_unix,
        a[1] == 0 || in_bounds(m.len(), a[1] as int, 110),
        a[2] == 0 || in_bounds(m.len(), a[2] as int, 4),
    ensures
        ({
            let s = f.sockets[n];
            let (step, g) = accept_after(f, m, a);
            &&& g == f
            &&& step == (if s.bound is Some && s.listen_backlog is Some && s.unix_listener {
                AcceptModel::AcceptUnix { socket: n }
            } else {
                AcceptModel::Done(-EINVAL)
            })
        }),
{
}

/// Binding a Unix socket ends with the socket bound to the path and able to accept, or
/// with the host's error.
pub proof fn a_bound_unix_socket_can_accept(
    f: FdModel,
    fd: u32,
    n: u64,
    path: Seq<u8>,
    outcome: Result<(), NetError>,
)
    requires
        f.at(fd as int) == Some(Resource::Socket(n)),
        f.sockets[n].family_unix,
    ensures
        ({
            let (r, g) = unix_bind_done_after(f, fd, path, outcome);
            let t = g.sockets[n];
            &&& outcome is Ok ==> r == 0 && t.bound == Some(AddrModel::Unix { path })
                && t.unix_listener && t.is_acceptor && g.slots == f.slots && t.listen_backlog
                == f.sockets[n].listen_backlog
            &&& (outcome matches Err(e) ==> g == f && r == (match e {
                NetError::AddrInUse => -EADDRINUSE,
                NetError::NotFound => -ENOENT,
                _ => -EIO,
            }))
        }),
{
}

/// Both sockets of a pair are new, are told by their numbers, and are connected.
pub proof fn a_pair_is_connected(
    f: FdModel,
    m: Seq<u8>,
    ptr: int,
    kind: SocketKind,
)
    requires
        f.wf(),
        f.room(2),
        in_bounds(m.len(), ptr, 8),
    ensures
        ({
            let r = socketpair_done_after(f, m, ptr, kind, true);
            let x = word_at(r.mem, ptr, 4) as int;
            let y = word_at(r.mem, ptr + 4, 4) as int;
            &&& r.ret == 0
            &&& x != y
            &&& f.at(x) is None && f.at(y) is None
            &&& is_socket(r.fds, x) && is_socket(r.fds, y)
            &&& r.fds.at(x) != r.fds.at(y)
            &&& is_connected(socket_of(r.fds, x)) && is_connected(socket_of(r.fds, y))
            &&& socket_of(r.fds, x).kind == kind && socket_of(r.fds, y).kind == kind
            &&& !socket_of(r.fds, x).shut_rd && !socket_of(r.fds, x).shut_wr
            &&& !socket_of(r.fds, y).shut_rd && !socket_of(r.fds, y).shut_wr
            &&& forall|k: u32| k != x && k != y ==> #[trigger] r.fds.at(k as int) == f.at(k as int)
            &&& forall|k: int|
                0 <= k < m.len() && !(ptr <= k < ptr + 8) ==> #[trigger] r.mem[k] == m[k]
        }),
{
    a_number_is_free(f, 3);
    let one = crate::sys::socket::socket_opened(f, crate::sys::socket::paired(kind));
    let x = crate::fd::lowest_free(f.slots, 3);
    if x > crate::fd::FD_LIMIT {
        assert(f.slots.contains_key(crate::fd::FD_LIMIT));
    }
    crate::fd::a_number_is_free_among(one.slots, 3);
    let y = crate::fd::lowest_free(one.slots, 3);
    let image = le(x as nat, 4) + le(y as nat, 4);
    let r = socketpair_done_after(f, m, ptr, kind, true);
    pow256_values();
    le_round_trip(x as nat, 4);
    le_round_trip(y as nat, 4);
    assert(window(r.mem, ptr, 4) =~= le(x as nat, 4));
    assert(window(r.mem, ptr + 4, 4) =~= le(y as nat, 4));
}

/// A pair is made of Unix sockets alone, streams or datagrams, and needs room for its two
/// numbers.
pub proof fn a_pair_is_unix(m: Seq<u8>, a: [i64; 6])
    ensures
        ({
            let kind = (a[1] as i32) & 0xf;
            let r = socketpair_kind(m, a);
            &&& a[0] as i32 != 1 ==> r == Err::<SocketKind, i64>((-EAFNOSUPPORT) as i64)
            &&& a[0] as i32 == 1 && kind != 1 && kind != 2 ==> r == Err::<SocketKind, i64>(
                (-EPROTONOSUPPORT) as i64,
            )
            &&& a[0] as i32 == 1 && (kind == 1 || kind == 2) ==> r == (if a[3] != 0 && in_bounds(
                m.len(),
                a[3] as int,
                8,
            ) {
                Ok(
                    if kind == 1 {
                        SocketKind::Stream
                    } else {
                        SocketKind::Datagram
                    },
                )
            } else {
                Err((-EFAULT) as i64)
            })
        }),
{
}

/// Shutting a socket down closes the directions that were named, zero for receiving, one
/// for sending, two for both, and no other; the host closes the sending half of a
/// connection.
#[verifier::rlimit(60)]
pub proof fn shutting_down_closes_directions(f: FdModel, a: [i64; 6], n: u64)
    requires
        f.at(a[0] as int) == Some(Resource::Socket(n)),
    ensures
        ({
            let (step, g) = shutdown_after(f, a);
            let how = a[1] as i32;
            let s = f.sockets[n];
            let t = g.sockets[n];
            &&& !(0 <= how <= 2) ==> step == ShutdownStep::Done((-EINVAL) as i64) && g == f
            &&& 0 <= how <= 2 ==> {
                &&& t.shut_rd == (s.shut_rd || how != 1)
                &&& t.shut_wr == (s.shut_wr || how != 0)
                &&& t.stream == s.stream && t.stream_unix == s.stream_unix && t.peer_addr
                    == s.peer_addr && t.peek_buf == s.peek_buf && t.bound == s.bound
                &&& g.slots == f.slots
                &&& step == (if how != 0 && s.stream {
                    ShutdownStep::CloseWrite { socket: n }
                } else {
                    ShutdownStep::Done(0)
                })
            }
        }),
{
    let (step, g) = shutdown_after(f, a);
    let how = a[1] as i32;
    let s = f.sockets[n];
    if 0 <= how <= 2 {
        let t = SocketModel {
            shut_rd: s.shut_rd || how == 0 || how == 2,
            shut_wr: s.shut_wr || how == 1 || how == 2,
            ..s
        };
        assert(g == f.with_socket(n, t));
        assert(g.sockets[n] == t);
    }
}

/// Whether `level` and `name` are those of reuse (1, 2), keep-alive (1, 9) or no-delay
/// (6, 1).
pub open spec fn is_switch(level: i32, name: i32) -> bool {
    (level == 1 && (name == 2 || name == 9)) || (level == 6 && name == 1)
}

/// An option that is set is read back as one by every later call, and no other switch
/// moves; before that it is read as zero on a new socket. Setting needs a readable value.
pub proof fn a_set_option_is_read_back(
    f: FdModel,
    m: Seq<u8>,
    a: [i64; 6],
    later: Seq<u8>,
    b: [i64; 6],
    n: u64,
)
    requires
        f.at(a[0] as int) == Some(Resource::Socket(n)),
        a[3] == 0 || a[4] <= 0 || in_bounds(m.len(), a[3] as int, a[4] as int),
        b[0] == a[0],
        b[3] != 0 && in_bounds(later.len(), b[3] as int, 4),
        b[4] == 0 || (in_bounds(later.len(), b[4] as int, 4) && (b[3] + 4 <= b[4] || b[4] + 4
            <= b[3])),
        is_switch(b[1] as i32, b[2] as i32),
    ensures
        ({
            let (r, g) = setsockopt_after(f, m, a);
            let before = getsockopt_after(f, later, b);
            let got = getsockopt_after(g, later, b);
            &&& r == 0
            &&& got.ret == 0 && before.ret == 0
            &&& a[1] as i32 == b[1] as i32 && a[2] as i32 == b[2] as i32 ==> word_at(
                got.mem,
                b[3] as int,
                4,
            ) == 1
            &&& a[1] as i32 != b[1] as i32 || a[2] as i32 != b[2] as i32 ==> word_at(
                got.mem,
                b[3] as int,
                4,
            ) == word_at(before.mem, b[3] as int, 4)
            &&& b[4] != 0 ==> word_at(got.mem, b[4] as int, 4) == 4
            &&& got.fds == g
        }),
{
    let (r, g) = setsockopt_after(f, m, a);
    let got = getsockopt_after(g, later, b);
    let before = getsockopt_after(f, later, b);
    pow256_values();
    le_round_trip(1, 4);
    le_round_trip(0, 4);
    le_round_trip(4, 4);
    let v = crate::sys::socket::option_value(g.sockets[n], b[1] as i32, b[2] as i32);
    let w = crate::sys::socket::option_value(f.sockets[n], b[1] as i32, b[2] as i32);
    assert(window(got.mem, b[3] as int, 4) =~= le(crate::bytes::word32(v), 4));
    assert(window(before.mem, b[3] as int, 4) =~= le(crate::bytes::word32(w), 4));
    if b[4] != 0 {
        assert(window(got.mem, b[4] as int, 4) =~= le(4, 4));
    }
    assert(got.fds.sockets =~= g.sockets);
}

/// The error of a failed connection is told once (option 4): reading it gives the number
/// and leaves zero. Whether a socket accepts (option 30) and its type (3) and domain (39)
/// are told without a change.
pub proof fn a_recorded_error_is_read_once(f: FdModel, m: Seq<u8>, a: [i64; 6], n: u64)
    requires
        f.at(a[0] as int) == Some(Resource::Socket(n)),
        a[1] as i32 == 1,
        a[3] != 0 && in_bounds(m.len(), a[3] as int, 4),
        a[4] == 0,
        0 <= f.sockets[n].last_error,
    ensures
        ({
            let r = getsockopt_after(f, m, a);
            let name = a[2] as i32;
            let v = word_at(r.mem, a[3] as int, 4);
            &&& r.ret == 0
            &&& name == 4 ==> v == f.sockets[n].last_error && r.fds.sockets[n].last_error == 0
            &&& name == 30 ==> v == (if f.sockets[n].is_acceptor {
                1int
            } else {
                0int
            })
            &&& name == 3 ==> v == 1
            &&& name == 39 ==> v == 2
            &&& name != 4 ==> r.fds.sockets[n] == f.sockets[n]
            &&& r.fds.slots == f.slots
            &&& r.fds.sockets[n].stream == f.sockets[n].stream && r.fds.sockets[n].bound
                == f.sockets[n].bound && r.fds.sockets[n].peer_addr == f.sockets[n].peer_addr
            &&& forall|k: int|
                0 <= k < m.len() && !(a[3] <= k < a[3] + 4) ==> #[trigger] r.mem[k] == m[k]
        }),
{
    let r = getsockopt_after(f, m, a);
    pow256_values();
    le_round_trip(1, 4);
    le_round_trip(0, 4);
    le_round_trip(2, 4);
    le_round_trip(f.sockets[n].last_error as nat, 4);
    let v = crate::sys::socket::option_value(f.sockets[n], a[1] as i32, a[2] as i32);
    assert(window(r.mem, a[3] as int, 4) =~= le(crate::bytes::word32(v), 4));
}

} // verus!
