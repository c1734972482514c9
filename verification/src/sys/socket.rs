//! Socket system calls.
//!
//! The host keeps the listeners and connections. A call that needs one stops
//! half-way and returns what the host is to do; a second function takes the host's
//! reply and finishes the call. While the host works on a connection, the socket is
//! without it.

use std::collections::VecDeque;
use vstd::prelude::*;
use vstd::slice::slice_subrange;
use crate::bytes::int32;
use crate::bytes::le;
use crate::bytes::le_len;
use crate::bytes::le_round_trip;
use crate::bytes::push_bytes;
use crate::bytes::push_le;
use crate::bytes::push_zeros;
use crate::bytes::read_le;
use crate::bytes::to_int32;
use crate::bytes::to_word32;
use crate::bytes::word32;
use crate::bytes::zeros;
use crate::errno::EACCES;
use crate::errno::EADDRINUSE;
use crate::errno::EAFNOSUPPORT;
use crate::errno::EBADF;
use crate::errno::ECONNREFUSED;
use crate::errno::EDESTADDRREQ;
use crate::errno::EFAULT;
use crate::errno::EINVAL;
use crate::errno::EIO;
use crate::errno::EISCONN;
use crate::errno::ENETUNREACH;
use crate::errno::ENOENT;
use crate::errno::ENOMEM;
use crate::errno::ENOTCONN;
use crate::errno::EOPNOTSUPP;
use crate::errno::EPIPE;
use crate::errno::EPROTONOSUPPORT;
use crate::errno::ETIMEDOUT;
use crate::fd::addr_view;
use crate::fd::bytes_view;
use crate::fd::fd_arg;
use crate::fd::fresh_socket;
use crate::fd::group_fd_objects;
use crate::fd::listening;
use crate::fd::lowest_free;
use crate::fd::AddrModel;
use crate::fd::FdModel;
use crate::fd::FdTable;
use crate::fd::Resource;
use crate::fd::SockAddr;
use crate::fd::SocketInner;
use crate::fd::SocketKind;
use crate::fd::SocketModel;
use crate::host::FileKind;
use crate::host::IoErrorKind;
use crate::mem::check_range;
use crate::mem::guest_slice;
use crate::mem::guest_word;
use crate::mem::guest_write;
use crate::mem::in_bounds;
use crate::mem::is_utf8;
use crate::mem::splice;
use crate::mem::splice_reads_back;
use crate::mem::to_index;
use crate::mem::window;
use crate::mem::word_at;
use crate::mem::written;
use crate::path::copy_bytes;
use crate::sys::file::After;
use crate::sys::file::capacity;
use crate::sys::file::front;
use crate::sys::file::iovecs;
use crate::sys::file::parse_iovecs;
use crate::sys::file::GUEST_LIMIT;
use crate::vfs::resized;

verus! {

broadcast use {le_len, group_fd_objects};

// System call numbers (x86-64).
pub const NR_SOCKET: u32 = 41;
pub const NR_BIND: u32 = 49;
pub const NR_LISTEN: u32 = 50;
pub const NR_SETSOCKOPT: u32 = 54;
pub const NR_GETSOCKOPT: u32 = 55;
pub const NR_GETSOCKNAME: u32 = 51;
pub const NR_GETPEERNAME: u32 = 52;
pub const NR_SHUTDOWN: u32 = 48;
pub const NR_ACCEPT: u32 = 43;
pub const NR_ACCEPT4: u32 = 288;
pub const NR_CONNECT: u32 = 42;
pub const NR_SENDTO: u32 = 44;
pub const NR_RECVFROM: u32 = 45;
pub const NR_SENDMSG: u32 = 46;
pub const NR_RECVMSG: u32 = 47;
pub const NR_SOCKETPAIR: u32 = 53;

// Flags of `sendmsg` and `recvmsg`.
pub const MSG_PEEK: i32 = 0x2;
pub const MSG_DONTWAIT: i32 = 0x40;
pub const MSG_NOSIGNAL: i32 = 0x4000;
pub const MSG_TRUNC: i32 = 0x20;
pub const MSG_CTRUNC: i32 = 0x8;

/// The size of `struct msghdr`: eight words of four bytes.
pub const MSGHDR_SIZE: i64 = 32;

// Levels and names of socket options.
pub const SOL_SOCKET: i32 = 1;
pub const IPPROTO_TCP: i32 = 6;
pub const SO_REUSEADDR: i32 = 2;
pub const SO_KEEPALIVE: i32 = 9;
pub const SO_TYPE: i32 = 3;
pub const SO_ERROR: i32 = 4;
pub const SO_DOMAIN: i32 = 39;
pub const SO_ACCEPTCONN: i32 = 30;
pub const TCP_NODELAY: i32 = 1;

// Which half `shutdown` closes.
pub const SHUT_RD: i32 = 0;
pub const SHUT_WR: i32 = 1;
pub const SHUT_RDWR: i32 = 2;

// Address families.
pub const AF_UNIX: i32 = 1;
pub const AF_INET: i32 = 2;
pub const AF_INET6: i32 = 10;

// Socket types, and the flags that go with them.
pub const SOCK_STREAM: i32 = 1;
pub const SOCK_DGRAM: i32 = 2;
pub const SOCK_NONBLOCK: i32 = 0o4000;
pub const SOCK_CLOEXEC: i32 = 0o2000000;

// Sizes of socket addresses.
pub const SOCKADDR_STORAGE_SIZE: usize = 128;
pub const SOCKADDR_IN_SIZE: usize = 16;
pub const SOCKADDR_IN6_SIZE: usize = 28;
pub const SOCKADDR_UN_SIZE: usize = 110;

/// The kind of socket that a family and a type ask for.
pub open spec fn socket_kind(family: i32, sock_type: i32) -> Result<SocketKind, i64> {
    if family != AF_INET && family != AF_INET6 && family != AF_UNIX {
        Err((-EAFNOSUPPORT) as i64)
    } else if sock_type == SOCK_STREAM {
        Ok(SocketKind::Stream)
    } else if sock_type == SOCK_DGRAM {
        Ok(SocketKind::Datagram)
    } else {
        Err((-EPROTONOSUPPORT) as i64)
    }
}

fn kind_for(family: i32, sock_type: i32) -> (r: Result<SocketKind, i64>)
    ensures
        r == socket_kind(family, sock_type),
{
    if family != AF_INET && family != AF_INET6 && family != AF_UNIX {
        Err(-EAFNOSUPPORT)
    } else if sock_type == SOCK_STREAM {
        Ok(SocketKind::Stream)
    } else if sock_type == SOCK_DGRAM {
        Ok(SocketKind::Datagram)
    } else {
        Err(-EPROTONOSUPPORT)
    }
}

/// The table with the socket `s` in it, under its lowest free descriptor.
pub open spec fn socket_opened(f: FdModel, s: SocketModel) -> FdModel {
    let n = f.next_id;
    f.with_socket(n, s).numbered().bind(lowest_free(f.slots, 3), Resource::Socket(n))
}

/// Let the lowest free descriptor name the socket `s`.
fn open_socket(fds: &mut FdTable, s: SocketInner) -> (r: u32)
    requires
        old(fds)@.wf(),
        old(fds)@.room(1),
    ensures
        r == lowest_free(old(fds)@.slots, 3),
        r < crate::fd::FD_LIMIT,
        final(fds)@ == socket_opened(old(fds)@, s@),
        final(fds)@.wf(),
{
    let n: u64 = fds.add_socket(s);
    fds.insert(Resource::Socket(n))
}

/// What `socket` does. The low four bits of the type say the kind of socket; of the
/// flags beside them only `SOCK_NONBLOCK` has an effect.
pub open spec fn socket_after(f: FdModel, a: [i64; 6]) -> (int, FdModel) {
    let family = a[0] as i32;
    let kind = a[1] as i32;
    match socket_kind(family, kind & 0xf) {
        Err(e) => (e as int, f),
        Ok(k) => (
            lowest_free(f.slots, 3) as int,
            socket_opened(f, fresh_socket(k, kind & SOCK_NONBLOCK != 0, family == AF_UNIX)),
        ),
    }
}

/// `socket(family, type, protocol)`: a new socket. The protocol is not used, and of
/// the flags in the type only `SOCK_NONBLOCK` has an effect.
pub fn socket(fds: &mut FdTable, a: [i64; 6]) -> (r: i64)
    requires
        old(fds)@.wf(),
        old(fds)@.room(1),
    ensures
        final(fds)@.wf(),
        r == socket_after(old(fds)@, a).0,
        final(fds)@ == socket_after(old(fds)@, a).1,
{
    let family: i32 = a[0] as i32;
    let type_and_flags: i32 = a[1] as i32;
    let sock_type: i32 = type_and_flags & 0xf;
    let nonblock: bool = type_and_flags & SOCK_NONBLOCK != 0;
    let kind: SocketKind = match kind_for(family, sock_type) {
        Ok(k) => k,
        Err(e) => {
            return e;
        },
    };
    let inner: SocketInner = if family == AF_UNIX {
        SocketInner::new_unix(kind, nonblock)
    } else {
        SocketInner::new(kind, nonblock)
    };
    open_socket(fds, inner) as i64
}

/// A new blocking socket, by family and type alone.
pub fn socket_for_test(fds: &mut FdTable, family: i32, type_and_flags: i32) -> (r: Result<u32, i64>)
    requires
        old(fds)@.wf(),
        old(fds)@.room(1),
    ensures
        final(fds)@.wf(),
        match socket_kind(family, type_and_flags & 0xf) {
            Err(e) => r == Err::<u32, i64>(e) && final(fds)@ == old(fds)@,
            Ok(k) => {
                &&& r == Ok::<u32, i64>(lowest_free(old(fds)@.slots, 3))
                &&& final(fds)@ == socket_opened(
                    old(fds)@,
                    fresh_socket(k, false, family == AF_UNIX),
                )
            },
        },
{
    let kind: SocketKind = match kind_for(family, type_and_flags & 0xf) {
        Ok(k) => k,
        Err(e) => {
            return Err(e);
        },
    };
    let inner: SocketInner = if family == AF_UNIX {
        SocketInner::new_unix(kind, false)
    } else {
        SocketInner::new(kind, false)
    };
    Ok(open_socket(fds, inner))
}

/// The number in two bytes, most significant first.
pub open spec fn be16(hi: u8, lo: u8) -> u16 {
    (hi * 256 + lo) as u16
}

/// Two bytes of a number, most significant first.
pub open spec fn be_bytes(x: u16) -> Seq<u8> {
    seq![(x / 256) as u8, (x % 256) as u8]
}

/// `s` up to its first zero byte.
pub open spec fn until_zero(s: Seq<u8>) -> Seq<u8>
    decreases s.len(),
{
    if s.len() == 0 || s[0] == 0 {
        Seq::empty()
    } else {
        seq![s[0]] + until_zero(s.drop_first())
    }
}

/// The socket address in the `len` bytes at `ptr`, or why there is none.
pub open spec fn sockaddr_at(m: Seq<u8>, ptr: int, len: int) -> Result<AddrModel, i64> {
    let family = word_at(m, ptr, 2);
    if ptr == 0 || len == 0 {
        Err((-EDESTADDRREQ) as i64)
    } else if !(0 <= len <= usize::MAX) {
        Err((-EINVAL) as i64)
    } else if !in_bounds(m.len(), ptr, 2) {
        Err((-EFAULT) as i64)
    } else if family == AF_INET {
        if len < SOCKADDR_IN_SIZE {
            Err((-EINVAL) as i64)
        } else if !in_bounds(m.len(), ptr, 16) {
            Err((-EFAULT) as i64)
        } else {
            Ok(AddrModel::V4 { port: be16(m[ptr + 2], m[ptr + 3]), addr: window(m, ptr + 4, 4) })
        }
    } else if family == AF_INET6 {
        if len < SOCKADDR_IN6_SIZE {
            Err((-EINVAL) as i64)
        } else if !in_bounds(m.len(), ptr, 28) {
            Err((-EFAULT) as i64)
        } else {
            Ok(AddrModel::V6 { port: be16(m[ptr + 2], m[ptr + 3]), addr: window(m, ptr + 8, 16) })
        }
    } else if family == AF_UNIX {
        let path = until_zero(window(m, ptr + 2, 108));
        if len < 3 {
            Err((-EINVAL) as i64)
        } else if !in_bounds(m.len(), ptr, 110) {
            Err((-EFAULT) as i64)
        } else if m[ptr + 2] == 0 {
            Err((-EOPNOTSUPP) as i64)
        } else if !vstd::utf8::valid_utf8(path) {
            Err((-EINVAL) as i64)
        } else {
            Ok(AddrModel::Unix { path })
        }
    } else {
        Err((-EAFNOSUPPORT) as i64)
    }
}

pub open spec fn addr_result(r: Result<SockAddr, i64>) -> Result<AddrModel, i64> {
    match r {
        Ok(a) => Ok(a@),
        Err(e) => Err(e),
    }
}

/// `s` up to its first zero byte.
fn before_zero(s: &[u8]) -> (r: Vec<u8>)
    ensures
        r@ == until_zero(s@),
{
    let n: usize = s.len();
    let mut out: Vec<u8> = Vec::new();
    let mut i: usize = 0;
    assert(s@.skip(0) =~= s@);
    assert(out@ + until_zero(s@.skip(0)) =~= until_zero(s@));
    while i < n && s[i] != 0
        invariant
            i <= n,
            n == s@.len(),
            out@ + until_zero(s@.skip(i as int)) == until_zero(s@),
        ensures
            i <= n,
            out@ + until_zero(s@.skip(i as int)) == until_zero(s@),
            i == n || s@[i as int] == 0,
        decreases n - i,
    {
        let ghost rest = s@.skip(i as int);
        let ghost before = out@;
        assert(rest.drop_first() =~= s@.skip(i + 1));
        out.push(s[i]);
        assert(out@ + until_zero(s@.skip(i + 1)) =~= before + until_zero(rest));
        i = i + 1;
    }
    assert(until_zero(s@.skip(i as int)) =~= Seq::<u8>::empty());
    assert(out@ + Seq::<u8>::empty() =~= out@);
    out
}

fn port_of(hi: u8, lo: u8) -> (r: u16)
    ensures
        r == be16(hi, lo),
{
    hi as u16 * 256 + lo as u16
}

/// Read the socket address in the `addr_len` bytes at `addr_ptr`.
pub fn parse_sockaddr(mem: &[u8], addr_ptr: i64, addr_len: i64) -> (r: Result<SockAddr, i64>)
    ensures
        addr_result(r) == sockaddr_at(mem@, addr_ptr as int, addr_len as int),
{
    if addr_ptr == 0 || addr_len == 0 {
        return Err(-EDESTADDRREQ);
    }
    if to_index(addr_len).is_none() {
        return Err(-EINVAL);
    }
    let family: u64 = match guest_word(mem, addr_ptr, 2) {
        Ok(f) => f,
        Err(e) => {
            return Err(e);
        },
    };
    if family == 2 {
        if addr_len < 16 {
            return Err(-EINVAL);
        }
        let b: Vec<u8> = match guest_slice(mem, addr_ptr, 16) {
            Ok(b) => b,
            Err(e) => {
                return Err(e);
            },
        };
        let addr: [u8; 4] = [b[4], b[5], b[6], b[7]];
        assert(addr@ =~= window(mem@, addr_ptr + 4, 4));
        return Ok(SockAddr::V4 { port: port_of(b[2], b[3]), addr });
    }
    if family == 10 {
        if addr_len < 28 {
            return Err(-EINVAL);
        }
        let b: Vec<u8> = match guest_slice(mem, addr_ptr, 28) {
            Ok(b) => b,
            Err(e) => {
                return Err(e);
            },
        };
        let addr: [u8; 16] = [
            b[8], b[9], b[10], b[11], b[12], b[13], b[14], b[15],
            b[16], b[17], b[18], b[19], b[20], b[21], b[22], b[23],
        ];
        assert(addr@ =~= window(mem@, addr_ptr + 8, 16));
        return Ok(SockAddr::V6 { port: port_of(b[2], b[3]), addr });
    }
    if family == 1 {
        if addr_len < 3 {
            return Err(-EINVAL);
        }
        let b: Vec<u8> = match guest_slice(mem, addr_ptr, 110) {
            Ok(b) => b,
            Err(e) => {
                return Err(e);
            },
        };
        if b[2] == 0 {
            return Err(-EOPNOTSUPP);
        }
        let part: &[u8] = slice_subrange(b.as_slice(), 2, 110);
        assert(part@ =~= window(mem@, addr_ptr + 2, 108));
        let path: Vec<u8> = before_zero(part);
        if !is_utf8(path.as_slice()) {
            return Err(-EINVAL);
        }
        return Ok(SockAddr::Unix { path });
    }
    Err(-EAFNOSUPPORT)
}

/// The bytes of an IPv4 socket address.
pub open spec fn v4_image(port: u16, addr: Seq<u8>) -> Seq<u8> {
    le(2, 2) + be_bytes(port) + addr + zeros(8)
}

/// The bytes of a Unix socket address: the path, as far as it fits, and zeros. A
/// nameless one has no path.
pub open spec fn unix_image(path: Option<Seq<u8>>) -> Seq<u8> {
    le(1, 2) + resized(
        match path {
            Some(p) => p,
            None => Seq::empty(),
        },
        108,
    )
}

/// The length that is reported of a Unix socket address: family, path and a zero
/// byte, as a 32-bit number.
pub open spec fn unix_len(path: Option<Seq<u8>>) -> nat {
    match path {
        Some(p) => (3 + p.len()) % 0x1_0000_0000,
        None => 2,
    }
}

fn encode_v4(port: u16, addr: &[u8; 4]) -> (r: Vec<u8>)
    ensures
        r@ == v4_image(port, addr@),
        r@.len() == 16,
{
    let mut out: Vec<u8> = Vec::new();
    push_le(&mut out, 2, 2);
    out.push((port / 256) as u8);
    out.push((port % 256) as u8);
    push_bytes(&mut out, addr);
    push_zeros(&mut out, 8);
    assert(out@ =~= v4_image(port, addr@));
    out
}

fn encode_unix(path: &Option<Vec<u8>>) -> (r: Vec<u8>)
    ensures
        r@ == unix_image(bytes_view(*path)),
        r@.len() == 110,
{
    let mut out: Vec<u8> = Vec::new();
    push_le(&mut out, 1, 2);
    match path {
        Some(p) => {
            let n: usize = p.len();
            let k: usize = if n < 108 {
                n
            } else {
                108
            };
            push_bytes(&mut out, slice_subrange(p.as_slice(), 0, k));
            push_zeros(&mut out, 108 - k);
        },
        None => {
            push_zeros(&mut out, 108);
        },
    }
    assert(out@ =~= unix_image(bytes_view(*path)));
    out
}

/// The memory after an address and its length were written, each where its pointer
/// is not null.
pub open spec fn addr_written(
    m: Seq<u8>,
    addr_ptr: int,
    len_ptr: int,
    image: Seq<u8>,
    len: nat,
) -> Seq<u8> {
    let one = if addr_ptr != 0 {
        written(m, addr_ptr, image)
    } else {
        m
    };
    if len_ptr != 0 {
        written(one, len_ptr, le(len, 4))
    } else {
        one
    }
}

fn write_addr(mem: &mut [u8], addr_ptr: i64, len_ptr: i64, image: &Vec<u8>, len: u64)
    ensures
        final(mem)@ == addr_written(
            old(mem)@,
            addr_ptr as int,
            len_ptr as int,
            image@,
            len as nat,
        ),
        final(mem)@.len() == old(mem)@.len(),
{
    if addr_ptr != 0 {
        let _ = guest_write(mem, addr_ptr, image.as_slice());
    }
    if len_ptr != 0 {
        let mut b: Vec<u8> = Vec::new();
        push_le(&mut b, len, 4);
        assert(b@ =~= le(len as nat, 4));
        let _ = guest_write(mem, len_ptr, b.as_slice());
    }
}

/// Why the buffers for an address and its length cannot be written to. A null
/// pointer asks for nothing.
pub open spec fn addr_refusal(size: nat, addr_ptr: int, addr_size: int, len_ptr: int) -> bool {
    (addr_ptr != 0 && !in_bounds(size, addr_ptr, addr_size)) || (len_ptr != 0 && !in_bounds(
        size,
        len_ptr,
        4,
    ))
}

fn check_addr(size: usize, addr_ptr: i64, addr_size: i64, len_ptr: i64) -> (r: Result<(), i64>)
    ensures
        r == (if addr_refusal(size as nat, addr_ptr as int, addr_size as int, len_ptr as int) {
            Err((-EFAULT) as i64)
        } else {
            Ok(())
        }),
{
    if addr_ptr != 0 {
        match check_range(size, addr_ptr, addr_size) {
            Ok(_) => {},
            Err(e) => {
                return Err(e);
            },
        }
    }
    if len_ptr != 0 {
        match check_range(size, len_ptr, 4) {
            Ok(_) => {},
            Err(e) => {
                return Err(e);
            },
        }
    }
    Ok(())
}

/// The socket that `a` names.
pub open spec fn sock(f: FdModel, a: int) -> Option<u64> {
    match f.at(a) {
        Some(Resource::Socket(n)) => Some(n),
        _ => None,
    }
}

fn find_socket(fds: &FdTable, a: i64) -> (r: Option<u64>)
    ensures
        r == sock(fds@, a as int),
{
    match fds.lookup(a) {
        Some(Resource::Socket(n)) => Some(n),
        _ => None,
    }
}

/// What is left to do of a `bind`.
pub enum BindStep {
    Done(i64),
    /// Tell what is at the path; `unix_bind_probed` goes on.
    Probe { path: Vec<u8> },
}

/// What `bind` does. A Unix address needs the host; any other is only noted.
pub open spec fn bind_after(f: FdModel, m: Seq<u8>, a: [i64; 6]) -> (
    Result<int, Seq<u8>>,
    FdModel,
) {
    if !(0 <= a[0] <= u32::MAX) {
        (Ok(-EBADF), f)
    } else {
        match sockaddr_at(m, a[1] as int, a[2] as int) {
            Err(e) => (Ok(e as int), f),
            Ok(AddrModel::Unix { path }) => match sock(f, a[0] as int) {
                Some(n) if f.sockets[n].family_unix => (Err(path), f),
                _ => (Ok(-EOPNOTSUPP), f),
            },
            Ok(addr) => match sock(f, a[0] as int) {
                Some(n) => (
                    Ok(0),
                    f.with_socket(n, SocketModel { bound: Some(addr), ..f.sockets[n] }),
                ),
                None => (Ok(-EBADF), f),
            },
        }
    }
}

/// `bind(fd, addr, addrlen)`.
pub fn bind(fds: &mut FdTable, mem: &[u8], a: [i64; 6]) -> (r: BindStep)
    requires
        old(fds)@.wf(),
    ensures
        final(fds)@ == bind_after(old(fds)@, mem@, a).1,
        final(fds)@.wf(),
        match bind_after(old(fds)@, mem@, a).0 {
            Ok(ret) => r matches BindStep::Done(c) && c == ret,
            Err(p) => r matches BindStep::Probe { path } && path@ == p,
        },
{
    if fd_arg(a[0]).is_none() {
        return BindStep::Done(-EBADF);
    }
    let addr: SockAddr = match parse_sockaddr(mem, a[1], a[2]) {
        Ok(a) => a,
        Err(e) => {
            return BindStep::Done(e);
        },
    };
    let found: Option<u64> = find_socket(fds, a[0]);
    match addr {
        SockAddr::Unix { path } => match found {
            Some(n) => {
                if fds.socket(n).family_unix {
                    BindStep::Probe { path }
                } else {
                    BindStep::Done(-EOPNOTSUPP)
                }
            },
            None => BindStep::Done(-EOPNOTSUPP),
        },
        addr => match found {
            Some(n) => {
                let mut s: SocketInner = fds.take_socket(n);
                s.bound = Some(addr);
                fds.put_socket(n, s);
                BindStep::Done(0)
            },
            None => BindStep::Done(-EBADF),
        },
    }
}

/// The next step in binding a Unix socket to a path.
#[derive(Clone, Copy, PartialEq, Eq, Structural, Debug)]
pub enum UnixBind {
    Done(i64),
    /// Remove what is there; `unix_bind_unlinked` goes on.
    Unlink,
    /// Listen at the path; `unix_bind_done` finishes.
    Listen,
}

/// What to do about what is at the path of a Unix socket.
pub open spec fn unix_bind_found(found: Result<FileKind, IoErrorKind>) -> UnixBind {
    match found {
        Ok(FileKind::Socket) => UnixBind::Unlink,
        Ok(_) => UnixBind::Done((-EADDRINUSE) as i64),
        Err(IoErrorKind::NotFound) => UnixBind::Listen,
        Err(IoErrorKind::PermissionDenied) => UnixBind::Done((-EACCES) as i64),
        Err(_) => UnixBind::Done((-EIO) as i64),
    }
}

/// What to do about what is at the path: a socket left over from before is removed,
/// anything else is in the way.
pub fn unix_bind_probed(found: Result<FileKind, IoErrorKind>) -> (r: UnixBind)
    ensures
        r == unix_bind_found(found),
{
    match found {
        Ok(FileKind::Socket) => UnixBind::Unlink,
        Ok(_) => UnixBind::Done(-EADDRINUSE),
        Err(IoErrorKind::NotFound) => UnixBind::Listen,
        Err(IoErrorKind::PermissionDenied) => UnixBind::Done(-EACCES),
        Err(_) => UnixBind::Done(-EIO),
    }
}

/// What to do once the host has tried to remove a leftover socket.
pub open spec fn unix_bind_cleared(removed: Result<(), IoErrorKind>) -> UnixBind {
    match removed {
        Ok(_) | Err(IoErrorKind::NotFound) => UnixBind::Listen,
        Err(_) => UnixBind::Done((-EADDRINUSE) as i64),
    }
}

/// What to do once the host has tried to remove the leftover socket. It does not
/// matter who removed it.
pub fn unix_bind_unlinked(removed: Result<(), IoErrorKind>) -> (r: UnixBind)
    ensures
        r == unix_bind_cleared(removed),
{
    match removed {
        Ok(_) | Err(IoErrorKind::NotFound) => UnixBind::Listen,
        Err(_) => UnixBind::Done(-EADDRINUSE),
    }
}

/// Why the host could not make a listener or a connection.
#[derive(Clone, Copy, PartialEq, Eq, Structural, Debug)]
pub enum NetError {
    AddrInUse,
    ConnectionRefused,
    NetworkUnreachable,
    NotFound,
    TimedOut,
    Other,
}

/// What the end of binding a Unix socket does: a socket that listens at the path is bound
/// to it.
pub open spec fn unix_bind_done_after(
    f: FdModel,
    fd: u32,
    path: Seq<u8>,
    listening: Result<(), NetError>,
) -> (int, FdModel) {
    match listening {
        Err(e) => (
            match e {
                NetError::AddrInUse => -EADDRINUSE,
                NetError::NotFound => -ENOENT,
                _ => -EIO,
            },
            f,
        ),
        Ok(_) => match sock(f, fd as int) {
            None => (-EBADF, f),
            Some(n) => {
                let s = f.sockets[n];
                (
                    0,
                    f.with_socket(
                        n,
                        SocketModel {
                            bound: Some(AddrModel::Unix { path }),
                            unix_listener: s.unix_listener || s.family_unix,
                            is_acceptor: s.is_acceptor || s.family_unix,
                            ..s
                        },
                    ),
                )
            },
        },
    }
}

/// Finish the `bind` of a Unix socket: the host listens at the path now, or could
/// not. A Unix socket has its listener, and counts as an acceptor, from here on.
pub fn unix_bind_done(
    fds: &mut FdTable,
    fd: u32,
    path: Vec<u8>,
    listening: Result<(), NetError>,
) -> (r: i64)
    requires
        old(fds)@.wf(),
    ensures
        final(fds)@.wf(),
        r == unix_bind_done_after(old(fds)@, fd, path@, listening).0,
        final(fds)@ == unix_bind_done_after(old(fds)@, fd, path@, listening).1,
{
    match listening {
        Err(NetError::AddrInUse) => -EADDRINUSE,
        Err(NetError::NotFound) => -ENOENT,
        Err(_) => -EIO,
        Ok(_) => match fds.socket_at(fd) {
            None => -EBADF,
            Some(n) => {
                let mut s: SocketInner = fds.take_socket(n);
                s.bound = Some(SockAddr::Unix { path });
                if s.family_unix {
                    s.unix_listener = true;
                    s.is_acceptor = true;
                }
                fds.put_socket(n, s);
                0
            },
        },
    }
}

/// What is left to do of an `accept4`.
#[derive(Clone, Copy, Debug)]
pub enum AcceptStep {
    Done(i64),
    /// Listen at the address; `accept4_listening` goes on.
    Listen { socket: u64, addr: [u8; 4], port: u16 },
    /// Take a connection from the listener; `accept4_done` finishes. A connection
    /// gets this kind and this non-blocking flag.
    Accept { socket: u64, kind: SocketKind, nonblock: bool },
    /// Take a connection from the Unix listener; `accept4_unix_done` finishes.
    AcceptUnix { socket: u64 },
}

pub enum AcceptModel {
    Done(int),
    Listen { socket: u64, addr: Seq<u8>, port: u16 },
    Accept { socket: u64, kind: SocketKind, nonblock: bool },
    AcceptUnix { socket: u64 },
}

impl View for AcceptStep {
    type V = AcceptModel;

    open spec fn view(&self) -> AcceptModel {
        match *self {
            AcceptStep::Done(r) => AcceptModel::Done(r as int),
            AcceptStep::Listen { socket, addr, port } => AcceptModel::Listen {
                socket,
                addr: addr@,
                port,
            },
            AcceptStep::Accept { socket, kind, nonblock } => AcceptModel::Accept {
                socket,
                kind,
                nonblock,
            },
            AcceptStep::AcceptUnix { socket } => AcceptModel::AcceptUnix { socket },
        }
    }
}

/// The non-blocking flag of a connection that `accept4` takes.
pub open spec fn accept_nonblock(a: [i64; 6]) -> bool {
    (a[3] as i32) & SOCK_NONBLOCK != 0
}

/// Whether a connection that `accept4` takes is to be closed on `exec`.
pub open spec fn accept_cloexec(a: [i64; 6]) -> bool {
    (a[3] as i32) & SOCK_CLOEXEC != 0
}

/// `s` without its listener, which the host is using.
pub open spec fn listener_taken(s: SocketModel) -> SocketModel {
    SocketModel { listener: false, ..s }
}

/// What `accept4` does on an internet socket.
pub open spec fn accept_inet(f: FdModel, n: u64, a: [i64; 6]) -> (AcceptModel, FdModel) {
    let s = f.sockets[n];
    if !listening(s) {
        (AcceptModel::Done(-EINVAL), f)
    } else {
        match s.bound {
            Some(AddrModel::V4 { port, addr }) => if s.listener {
                (
                    AcceptModel::Accept {
                        socket: n,
                        kind: s.kind,
                        nonblock: accept_nonblock(a) || s.nonblock,
                    },
                    f.with_socket(n, listener_taken(s)),
                )
            } else {
                (AcceptModel::Listen { socket: n, addr, port }, f)
            },
            _ => (AcceptModel::Done(-EOPNOTSUPP), f),
        }
    }
}

/// What `accept4` does on a Unix socket.
pub open spec fn accept_unix(f: FdModel, m: Seq<u8>, n: u64, a: [i64; 6]) -> AcceptModel {
    let s = f.sockets[n];
    if addr_refusal(m.len(), a[1] as int, 110, a[2] as int) {
        AcceptModel::Done(-EFAULT)
    } else if !listening(s) || !s.unix_listener {
        AcceptModel::Done(-EINVAL)
    } else {
        AcceptModel::AcceptUnix { socket: n }
    }
}

/// What `accept4` does. The listener of an internet socket is made by the first
/// call.
pub open spec fn accept_after(f: FdModel, m: Seq<u8>, a: [i64; 6]) -> (AcceptModel, FdModel) {
    if !(0 <= a[0] <= u32::MAX) {
        (AcceptModel::Done(-EBADF), f)
    } else if addr_refusal(m.len(), a[1] as int, 16, a[2] as int) {
        (AcceptModel::Done(-EFAULT), f)
    } else {
        match sock(f, a[0] as int) {
            None => (AcceptModel::Done(-EBADF), f),
            Some(n) => if f.sockets[n].family_unix {
                (accept_unix(f, m, n, a), f)
            } else {
                accept_inet(f, n, a)
            },
        }
    }
}

/// Take the listener of socket `n` for the host to use.
fn take_listener(fds: &mut FdTable, n: u64)
    requires
        old(fds)@.wf(),
        old(fds)@.sockets.contains_key(n),
    ensures
        final(fds)@ == old(fds)@.with_socket(n, listener_taken(old(fds)@.sockets[n])),
        final(fds)@.wf(),
{
    let mut s: SocketInner = fds.take_socket(n);
    s.listener = false;
    fds.put_socket(n, s);
}

fn accept4_inet(fds: &mut FdTable, n: u64, a: [i64; 6]) -> (r: AcceptStep)
    requires
        old(fds)@.wf(),
        old(fds)@.sockets.contains_key(n),
    ensures
        r@ == accept_inet(old(fds)@, n, a).0,
        final(fds)@ == accept_inet(old(fds)@, n, a).1,
        final(fds)@.wf(),
{
    let sock_nonblock: bool = (a[3] as i32) & SOCK_NONBLOCK != 0;
    let s: &SocketInner = fds.socket(n);
    if !s.is_listening() {
        return AcceptStep::Done(-EINVAL);
    }
    let (addr, port): ([u8; 4], u16) = match &s.bound {
        Some(SockAddr::V4 { port, addr }) => (*addr, *port),
        _ => {
            return AcceptStep::Done(-EOPNOTSUPP);
        },
    };
    if !s.listener {
        return AcceptStep::Listen { socket: n, addr, port };
    }
    let kind: SocketKind = s.kind;
    let nonblock: bool = sock_nonblock || s.nonblock;
    take_listener(fds, n);
    AcceptStep::Accept { socket: n, kind, nonblock }
}

fn accept4_unix(fds: &FdTable, mem: &[u8], n: u64, a: [i64; 6]) -> (r: AcceptStep)
    requires
        fds@.sockets.contains_key(n),
    ensures
        r@ == accept_unix(fds@, mem@, n, a),
{
    match check_addr(mem.len(), a[1], 110, a[2]) {
        Ok(_) => {},
        Err(e) => {
            return AcceptStep::Done(e);
        },
    }
    let s: &SocketInner = fds.socket(n);
    if !s.is_listening() || !s.unix_listener {
        return AcceptStep::Done(-EINVAL);
    }
    AcceptStep::AcceptUnix { socket: n }
}

/// `accept4(fd, addr, addrlen, flags)`. `SOCK_NONBLOCK` makes the connection
/// non-blocking, and `SOCK_CLOEXEC` is recorded of its descriptor.
pub fn accept4(fds: &mut FdTable, mem: &[u8], a: [i64; 6]) -> (r: AcceptStep)
    requires
        old(fds)@.wf(),
    ensures
        r@ == accept_after(old(fds)@, mem@, a).0,
        final(fds)@ == accept_after(old(fds)@, mem@, a).1,
        final(fds)@.wf(),
{
    if fd_arg(a[0]).is_none() {
        return AcceptStep::Done(-EBADF);
    }
    match check_addr(mem.len(), a[1], 16, a[2]) {
        Ok(_) => {},
        Err(e) => {
            return AcceptStep::Done(e);
        },
    }
    let n: u64 = match find_socket(fds, a[0]) {
        Some(n) => n,
        None => {
            return AcceptStep::Done(-EBADF);
        },
    };
    if fds.socket(n).family_unix {
        accept4_unix(fds, mem, n, a)
    } else {
        accept4_inet(fds, n, a)
    }
}

/// What `accept` does: `accept4` without flags.
pub open spec fn accept_call(f: FdModel, m: Seq<u8>, a: [i64; 6]) -> (AcceptModel, FdModel) {
    accept_after(f, m, [a[0], a[1], a[2], 0, 0, 0])
}

/// `accept(fd, addr, addrlen)`: `accept4` without flags.
pub fn accept(fds: &mut FdTable, mem: &[u8], a: [i64; 6]) -> (r: AcceptStep)
    requires
        old(fds)@.wf(),
    ensures
        r@ == accept_call(old(fds)@, mem@, a).0,
        final(fds)@ == accept_call(old(fds)@, mem@, a).1,
        final(fds)@.wf(),
{
    accept4(fds, mem, [a[0], a[1], a[2], 0, 0, 0])
}

/// How accepting goes on once the host listens, or does not.
pub open spec fn accept_listening_after(f: FdModel, a: [i64; 6], listens: bool) -> (
    AcceptModel,
    FdModel,
) {
    if !listens {
        (AcceptModel::Done(-EADDRINUSE), f)
    } else {
        match sock(f, a[0] as int) {
            None => (AcceptModel::Done(-EBADF), f),
            Some(n) => {
                let s = f.sockets[n];
                (
                    AcceptModel::Accept {
                        socket: n,
                        kind: s.kind,
                        nonblock: accept_nonblock(a) || s.nonblock,
                    },
                    f.with_socket(
                        n,
                        SocketModel {
                            listener: false,
                            is_acceptor: s.is_acceptor || !s.listener,
                            ..s
                        },
                    ),
                )
            },
        }
    }
}

/// Go on with an `accept4` once the host has tried to listen. The socket counts as
/// an acceptor from the moment its first listener is there.
pub fn accept4_listening(fds: &mut FdTable, a: [i64; 6], listens: bool) -> (r: AcceptStep)
    requires
        old(fds)@.wf(),
    ensures
        final(fds)@.wf(),
        r@ == accept_listening_after(old(fds)@, a, listens).0,
        final(fds)@ == accept_listening_after(old(fds)@, a, listens).1,
{
    if !listens {
        return AcceptStep::Done(-EADDRINUSE);
    }
    let sock_nonblock: bool = (a[3] as i32) & SOCK_NONBLOCK != 0;
    match find_socket(fds, a[0]) {
        None => AcceptStep::Done(-EBADF),
        Some(n) => {
            let mut s: SocketInner = fds.take_socket(n);
            if !s.listener {
                s.is_acceptor = true;
            }
            s.listener = false;
            let kind: SocketKind = s.kind;
            let nonblock: bool = sock_nonblock || s.nonblock;
            fds.put_socket(n, s);
            AcceptStep::Accept { socket: n, kind, nonblock }
        },
    }
}

/// A socket with the connection to `peer`.
pub open spec fn accepted(kind: SocketKind, nonblock: bool, peer: AddrModel) -> SocketModel {
    SocketModel { stream: true, peer_addr: Some(peer), ..fresh_socket(kind, nonblock, false) }
}

/// The table in which the socket that `a` names has its listener back.
pub open spec fn listener_back(f: FdModel, a: int) -> FdModel {
    match sock(f, a) {
        Some(n) => f.with_socket(n, SocketModel { listener: true, ..f.sockets[n] }),
        None => f,
    }
}

/// Give the socket that `a` names its listener back.
fn give_listener_back(fds: &mut FdTable, a: i64)
    requires
        old(fds)@.wf(),
    ensures
        final(fds)@ == listener_back(old(fds)@, a as int),
        final(fds)@.wf(),
        final(fds)@.slots == old(fds)@.slots,
        final(fds)@.next_id == old(fds)@.next_id,
{
    match find_socket(fds, a) {
        Some(n) => {
            let mut s: SocketInner = fds.take_socket(n);
            s.listener = true;
            fds.put_socket(n, s);
        },
        None => {},
    }
}

/// Whether the peer's address is asked for and cannot be given.
pub open spec fn peer_refused(size: nat, addr_ptr: int, peer: AddrModel) -> bool {
    !(peer is V4) && addr_ptr != 0 && in_bounds(size, addr_ptr, 16)
}

/// The memory with the peer's address in it, as far as it is asked for.
pub open spec fn peer_written(m: Seq<u8>, addr_ptr: int, len_ptr: int, peer: AddrModel) -> Seq<u8> {
    match peer {
        AddrModel::V4 { port, addr } => addr_written(
            m,
            addr_ptr,
            len_ptr,
            v4_image(port, addr),
            16,
        ),
        _ => addr_written(m, 0, len_ptr, Seq::empty(), 16),
    }
}

/// Write the peer's address as far as it is asked for; false where it cannot be
/// given.
fn write_peer(mem: &mut [u8], addr_ptr: i64, len_ptr: i64, peer: &SockAddr) -> (r: bool)
    ensures
        r == !peer_refused(old(mem)@.len(), addr_ptr as int, peer@),
        final(mem)@ == (if r {
            peer_written(old(mem)@, addr_ptr as int, len_ptr as int, peer@)
        } else {
            old(mem)@
        }),
        final(mem)@.len() == old(mem)@.len(),
{
    match peer {
        SockAddr::V4 { port, addr } => {
            let image: Vec<u8> = encode_v4(*port, addr);
            write_addr(mem, addr_ptr, len_ptr, &image, 16);
        },
        _ => {
            if addr_ptr != 0 && check_range(mem.len(), addr_ptr, 16).is_ok() {
                return false;
            }
            let image: Vec<u8> = Vec::new();
            assert(image@ =~= Seq::empty());
            write_addr(mem, 0, len_ptr, &image, 16);
        },
    }
    true
}

/// What the end of accepting does with the connection that the host took, if it did.
pub open spec fn accept_done_after(
    f: FdModel,
    m: Seq<u8>,
    a: [i64; 6],
    kind: SocketKind,
    nonblock: bool,
    peer: Option<AddrModel>,
) -> After {
    let fd = lowest_free(f.slots, 3);
    match peer {
        None => After { ret: -EIO, fds: f, mem: m },
        Some(p) => if peer_refused(m.len(), a[1] as int, p) {
            After { ret: -EOPNOTSUPP, fds: f, mem: m }
        } else {
            After {
                ret: fd as int,
                fds: socket_opened(
                    listener_back(f, a[0] as int),
                    accepted(kind, nonblock, p),
                ).with_cloexec(fd, accept_cloexec(a)),
                mem: peer_written(m, a[1] as int, a[2] as int, p),
            }
        },
    }
}

/// Finish an `accept4` with the address of the peer, or with `None` where the host
/// failed. Where it failed, and where the peer's address is asked for and is not
/// IPv4, the socket loses its listener.
pub fn accept4_done(
    fds: &mut FdTable,
    mem: &mut [u8],
    a: [i64; 6],
    kind: SocketKind,
    nonblock: bool,
    peer: Option<SockAddr>,
) -> (r: i64)
    requires
        old(fds)@.wf(),
        old(fds)@.room(1),
    ensures
        final(fds)@.wf(),
        final(mem)@.len() == old(mem)@.len(),
        (After { ret: r as int, fds: final(fds)@, mem: final(mem)@ }) == accept_done_after(
            old(fds)@,
            old(mem)@,
            a,
            kind,
            nonblock,
            addr_view(peer),
        ),
{
    let peer: SockAddr = match peer {
        Some(p) => p,
        None => {
            return -EIO;
        },
    };
    if !write_peer(mem, a[1], a[2], &peer) {
        return -EOPNOTSUPP;
    }
    give_listener_back(fds, a[0]);
    let mut s: SocketInner = SocketInner::new(kind, nonblock);
    s.stream = true;
    s.peer_addr = Some(peer);
    let fd: u32 = open_socket(fds, s);
    fds.set_cloexec(fd, (a[3] as i32) & SOCK_CLOEXEC != 0);
    fd as i64
}

/// What the host says when a connection is to be taken from a Unix listener.
pub enum UnixAccept {
    /// The host could not duplicate the listener.
    NoListener,
    /// There is no connection.
    Failed,
    /// A connection, from a peer that is bound to a path or has no name.
    Connected(Option<Vec<u8>>),
}

/// A Unix socket with the connection to a peer at `path`.
pub open spec fn accepted_unix(nonblock: bool, path: Option<Seq<u8>>) -> SocketModel {
    SocketModel {
        stream_unix: true,
        peer_path: path,
        ..fresh_socket(SocketKind::Stream, nonblock, true)
    }
}

/// What the end of accepting on a Unix socket does.
pub open spec fn accept_unix_done_after(
    f: FdModel,
    m: Seq<u8>,
    a: [i64; 6],
    reply: UnixAccept,
) -> After {
    let fd = lowest_free(f.slots, 3);
    match reply {
        UnixAccept::NoListener => After {
            ret: -ENOMEM,
            fds: match sock(f, a[0] as int) {
                Some(n) => f.with_socket(
                    n,
                    SocketModel { unix_listener: false, ..f.sockets[n] },
                ),
                None => f,
            },
            mem: m,
        },
        UnixAccept::Failed => After { ret: -EIO, fds: f, mem: m },
        UnixAccept::Connected(path) => {
            let p = bytes_view(path);
            After {
                ret: fd as int,
                fds: socket_opened(f, accepted_unix(accept_nonblock(a), p)).with_cloexec(
                    fd,
                    accept_cloexec(a),
                ),
                mem: addr_written(m, a[1] as int, a[2] as int, unix_image(p), unix_len(p)),
            }
        },
    }
}

/// Finish an `accept4` on a Unix socket.
pub fn accept4_unix_done(
    fds: &mut FdTable,
    mem: &mut [u8],
    a: [i64; 6],
    reply: UnixAccept,
) -> (r: i64)
    requires
        old(fds)@.wf(),
        old(fds)@.room(1),
    ensures
        final(fds)@.wf(),
        final(mem)@.len() == old(mem)@.len(),
        (After { ret: r as int, fds: final(fds)@, mem: final(mem)@ }) == accept_unix_done_after(
            old(fds)@,
            old(mem)@,
            a,
            reply,
        ),
{
    match reply {
        UnixAccept::NoListener => {
            match find_socket(fds, a[0]) {
                Some(n) => {
                    let mut s: SocketInner = fds.take_socket(n);
                    s.unix_listener = false;
                    fds.put_socket(n, s);
                },
                None => {},
            }
            -ENOMEM
        },
        UnixAccept::Failed => -EIO,
        UnixAccept::Connected(path) => {
            let image: Vec<u8> = encode_unix(&path);
            let len: u64 = reported_len(&path);
            write_addr(mem, a[1], a[2], &image, len);
            let nonblock: bool = (a[3] as i32) & SOCK_NONBLOCK != 0;
            let mut s: SocketInner = SocketInner::new_unix(SocketKind::Stream, nonblock);
            s.stream_unix = true;
            s.peer_path = path;
            let fd: u32 = open_socket(fds, s);
            fds.set_cloexec(fd, (a[3] as i32) & SOCK_CLOEXEC != 0);
            fd as i64
        },
    }
}

fn reported_len(path: &Option<Vec<u8>>) -> (r: u64)
    ensures
        r == unix_len(bytes_view(*path)),
{
    match path {
        Some(p) => (3 + p.len() as u64 % 0x1_0000_0000) % 0x1_0000_0000,
        None => 2,
    }
}

/// What is left to do of a `connect`.
pub enum ConnectStep {
    Done(i64),
    /// Connect to the path; `connect_unix_done` finishes.
    Unix { path: Vec<u8> },
    /// Connect to the address; `connect_v4_done` finishes.
    Inet { addr: [u8; 4], port: u16 },
}

pub enum ConnectModel {
    Done(int),
    Unix { path: Seq<u8> },
    Inet { addr: Seq<u8>, port: u16 },
}

impl View for ConnectStep {
    type V = ConnectModel;

    open spec fn view(&self) -> ConnectModel {
        match self {
            ConnectStep::Done(r) => ConnectModel::Done(*r as int),
            ConnectStep::Unix { path } => ConnectModel::Unix { path: path@ },
            ConnectStep::Inet { addr, port } => ConnectModel::Inet { addr: addr@, port: *port },
        }
    }
}

/// What connecting the socket that `fd` names to a Unix path comes to.
pub open spec fn connect_unix_step(f: FdModel, fd: int, path: Seq<u8>) -> ConnectModel {
    match sock(f, fd) {
        None => ConnectModel::Done(-EBADF),
        Some(n) => if !f.sockets[n].family_unix {
            ConnectModel::Done(-EOPNOTSUPP)
        } else if f.sockets[n].stream_unix {
            ConnectModel::Done(-EISCONN)
        } else {
            ConnectModel::Unix { path }
        },
    }
}

/// What connecting the socket that `fd` names to an IPv4 address comes to.
pub open spec fn connect_v4_step(f: FdModel, fd: int, port: u16, addr: Seq<u8>) -> ConnectModel {
    match sock(f, fd) {
        None => ConnectModel::Done(-EBADF),
        Some(n) => if f.sockets[n].stream {
            ConnectModel::Done(-EISCONN)
        } else {
            ConnectModel::Inet { addr, port }
        },
    }
}

/// What `connect` comes to.
pub open spec fn connect_step(f: FdModel, m: Seq<u8>, a: [i64; 6]) -> ConnectModel {
    if !(0 <= a[0] <= u32::MAX) {
        ConnectModel::Done(-EBADF)
    } else {
        match sockaddr_at(m, a[1] as int, a[2] as int) {
            Err(e) => ConnectModel::Done(e as int),
            Ok(AddrModel::Unix { path }) => connect_unix_step(f, a[0] as int, path),
            Ok(AddrModel::V4 { port, addr }) => connect_v4_step(f, a[0] as int, port, addr),
            Ok(AddrModel::V6 { .. }) => ConnectModel::Done(-EAFNOSUPPORT),
        }
    }
}

fn connect_unix(fds: &FdTable, fd: i64, path: Vec<u8>) -> (r: ConnectStep)
    requires
        fds@.wf(),
    ensures
        r@ == connect_unix_step(fds@, fd as int, path@),
{
    match find_socket(fds, fd) {
        None => ConnectStep::Done(-EBADF),
        Some(n) => {
            let s: &SocketInner = fds.socket(n);
            if !s.family_unix {
                ConnectStep::Done(-EOPNOTSUPP)
            } else if s.stream_unix {
                ConnectStep::Done(-EISCONN)
            } else {
                ConnectStep::Unix { path }
            }
        },
    }
}

fn connect_v4(fds: &FdTable, fd: i64, port: u16, addr: [u8; 4]) -> (r: ConnectStep)
    requires
        fds@.wf(),
    ensures
        r@ == connect_v4_step(fds@, fd as int, port, addr@),
{
    match find_socket(fds, fd) {
        None => ConnectStep::Done(-EBADF),
        Some(n) => {
            if fds.socket(n).stream {
                ConnectStep::Done(-EISCONN)
            } else {
                ConnectStep::Inet { addr, port }
            }
        },
    }
}

/// `connect(fd, addr, addrlen)`. Only Unix and IPv4 addresses can be connected to.
pub fn connect(fds: &FdTable, mem: &[u8], a: [i64; 6]) -> (r: ConnectStep)
    requires
        fds@.wf(),
    ensures
        r@ == connect_step(fds@, mem@, a),
{
    if fd_arg(a[0]).is_none() {
        return ConnectStep::Done(-EBADF);
    }
    match parse_sockaddr(mem, a[1], a[2]) {
        Err(e) => ConnectStep::Done(e),
        Ok(SockAddr::Unix { path }) => connect_unix(fds, a[0], path),
        Ok(SockAddr::V4 { port, addr }) => connect_v4(fds, a[0], port, addr),
        Ok(SockAddr::V6 { .. }) => ConnectStep::Done(-EAFNOSUPPORT),
    }
}

/// What the end of connecting to a path does.
pub open spec fn connect_unix_done_after(
    f: FdModel,
    fd: u32,
    path: Seq<u8>,
    connected: Result<(), NetError>,
) -> (int, FdModel) {
    match connected {
        Err(e) => (
            if e == NetError::NotFound {
                -ECONNREFUSED
            } else {
                -EIO
            },
            f,
        ),
        Ok(_) => match sock(f, fd as int) {
            None => (-EBADF, f),
            Some(n) => (
                0,
                f.with_socket(
                    n,
                    SocketModel {
                        bound: Some(AddrModel::Unix { path }),
                        stream_unix: true,
                        peer_path: Some(path),
                        ..f.sockets[n]
                    },
                ),
            ),
        },
    }
}

/// Finish the `connect` of a Unix socket.
pub fn connect_unix_done(
    fds: &mut FdTable,
    fd: u32,
    path: Vec<u8>,
    connected: Result<(), NetError>,
) -> (r: i64)
    requires
        old(fds)@.wf(),
    ensures
        final(fds)@.wf(),
        r == connect_unix_done_after(old(fds)@, fd, path@, connected).0,
        final(fds)@ == connect_unix_done_after(old(fds)@, fd, path@, connected).1,
{
    match connected {
        Err(NetError::NotFound) => -ECONNREFUSED,
        Err(_) => -EIO,
        Ok(_) => match fds.socket_at(fd) {
            None => -EBADF,
            Some(n) => {
                let mut s: SocketInner = fds.take_socket(n);
                s.peer_path = Some(copy_bytes(&path));
                s.bound = Some(SockAddr::Unix { path });
                s.stream_unix = true;
                fds.put_socket(n, s);
                0
            },
        },
    }
}

/// The error number, positive, of a failed IPv4 connection.
pub open spec fn connect_errno(e: NetError) -> i64 {
    match e {
        NetError::ConnectionRefused => ECONNREFUSED,
        NetError::AddrInUse => EADDRINUSE,
        NetError::TimedOut => ETIMEDOUT,
        NetError::NetworkUnreachable => ENETUNREACH,
        _ => EIO,
    }
}

/// What the end of connecting to an address does. An error is recorded.
pub open spec fn connect_v4_done_after(
    f: FdModel,
    fd: u32,
    addr: Seq<u8>,
    port: u16,
    connected: Result<(), NetError>,
) -> (int, FdModel) {
    match connected {
        Err(e) => (
            -connect_errno(e),
            match sock(f, fd as int) {
                Some(n) => f.with_socket(
                    n,
                    SocketModel { last_error: connect_errno(e) as i32, ..f.sockets[n] },
                ),
                None => f,
            },
        ),
        Ok(_) => match sock(f, fd as int) {
            None => (-EBADF, f),
            Some(n) => (
                0,
                f.with_socket(
                    n,
                    SocketModel {
                        stream: true,
                        peer_addr: Some(AddrModel::V4 { port, addr }),
                        ..f.sockets[n]
                    },
                ),
            ),
        },
    }
}

/// Finish the `connect` of an IPv4 socket. A failure is also kept for `SO_ERROR`.
pub fn connect_v4_done(
    fds: &mut FdTable,
    fd: u32,
    addr: [u8; 4],
    port: u16,
    connected: Result<(), NetError>,
) -> (r: i64)
    requires
        old(fds)@.wf(),
    ensures
        final(fds)@.wf(),
        r == connect_v4_done_after(old(fds)@, fd, addr@, port, connected).0,
        final(fds)@ == connect_v4_done_after(old(fds)@, fd, addr@, port, connected).1,
{
    match connected {
        Err(e) => {
            let errno: i64 = match e {
                NetError::ConnectionRefused => ECONNREFUSED,
                NetError::AddrInUse => EADDRINUSE,
                NetError::TimedOut => ETIMEDOUT,
                NetError::NetworkUnreachable => ENETUNREACH,
                _ => EIO,
            };
            match fds.socket_at(fd) {
                Some(n) => {
                    let mut s: SocketInner = fds.take_socket(n);
                    s.last_error = errno as i32;
                    fds.put_socket(n, s);
                },
                None => {},
            }
            -errno
        },
        Ok(_) => match fds.socket_at(fd) {
            None => -EBADF,
            Some(n) => {
                let mut s: SocketInner = fds.take_socket(n);
                s.stream = true;
                s.peer_addr = Some(SockAddr::V4 { port, addr });
                fds.put_socket(n, s);
                0
            },
        },
    }
}

/// Why `socketpair` cannot make a pair, or the kind of the two sockets.
pub open spec fn socketpair_kind(m: Seq<u8>, a: [i64; 6]) -> Result<SocketKind, i64> {
    let sock_type = (a[1] as i32) & 0xf;
    if (a[0] as i32) != AF_UNIX {
        Err((-EAFNOSUPPORT) as i64)
    } else if sock_type != SOCK_STREAM && sock_type != SOCK_DGRAM {
        Err((-EPROTONOSUPPORT) as i64)
    } else if a[3] == 0 || !in_bounds(m.len(), a[3] as int, 8) {
        Err((-EFAULT) as i64)
    } else if sock_type == SOCK_DGRAM {
        Ok(SocketKind::Datagram)
    } else {
        Ok(SocketKind::Stream)
    }
}

/// `socketpair(family, type, protocol, sv)`: the host is to connect two sockets of
/// the kind returned; `socketpair_done` finishes.
pub fn socketpair(mem: &[u8], a: [i64; 6]) -> (r: Result<SocketKind, i64>)
    ensures
        r == socketpair_kind(mem@, a),
{
    if (a[0] as i32) != AF_UNIX {
        return Err(-EAFNOSUPPORT);
    }
    let sock_type: i32 = (a[1] as i32) & 0xf;
    if sock_type != SOCK_STREAM && sock_type != SOCK_DGRAM {
        return Err(-EPROTONOSUPPORT);
    }
    if a[3] == 0 {
        return Err(-EFAULT);
    }
    match check_range(mem.len(), a[3], 8) {
        Ok(_) => {},
        Err(e) => {
            return Err(e);
        },
    }
    if sock_type == SOCK_DGRAM {
        Ok(SocketKind::Datagram)
    } else {
        Ok(SocketKind::Stream)
    }
}

/// One half of a pair.
pub open spec fn paired(kind: SocketKind) -> SocketModel {
    SocketModel { stream_unix: true, ..fresh_socket(kind, false, true) }
}

/// What the end of `socketpair` does: two sockets that are connected to each other.
pub open spec fn socketpair_done_after(
    f: FdModel,
    m: Seq<u8>,
    sv_ptr: int,
    kind: SocketKind,
    connected: bool,
) -> After {
    let one = socket_opened(f, paired(kind));
    let x = lowest_free(f.slots, 3);
    let y = lowest_free(one.slots, 3);
    if !connected {
        After { ret: -EIO, fds: f, mem: m }
    } else {
        After {
            ret: 0,
            fds: socket_opened(one, paired(kind)),
            mem: written(m, sv_ptr, le(x as nat, 4) + le(y as nat, 4)),
        }
    }
}

/// Finish a `socketpair`: the two descriptors are written to `sv_ptr`.
pub fn socketpair_done(
    fds: &mut FdTable,
    mem: &mut [u8],
    sv_ptr: i64,
    kind: SocketKind,
    connected: bool,
) -> (r: i64)
    requires
        old(fds)@.wf(),
        old(fds)@.room(2),
    ensures
        final(fds)@.wf(),
        final(mem)@.len() == old(mem)@.len(),
        (After { ret: r as int, fds: final(fds)@, mem: final(mem)@ }) == socketpair_done_after(
            old(fds)@,
            old(mem)@,
            sv_ptr as int,
            kind,
            connected,
        ),
{
    if !connected {
        return -EIO;
    }
    let mut p: SocketInner = SocketInner::new_unix(kind, false);
    p.stream_unix = true;
    let mut q: SocketInner = SocketInner::new_unix(kind, false);
    q.stream_unix = true;
    let x: u32 = open_socket(fds, p);
    proof {
        assert(fds@.slots.len() <= old(fds)@.slots.len() + 1);
    }
    let y: u32 = open_socket(fds, q);
    let mut b: Vec<u8> = Vec::new();
    push_le(&mut b, x as u64, 4);
    push_le(&mut b, y as u64, 4);
    assert(b@ =~= le(x as nat, 4) + le(y as nat, 4));
    let _ = guest_write(mem, sv_ptr, b.as_slice());
    0
}

/// Whether the connection of the socket is there to use.
pub open spec fn connected(s: SocketModel, unix: bool) -> bool {
    if unix {
        s.stream_unix
    } else {
        s.stream
    }
}

/// The socket with its connection there, or not.
pub open spec fn with_connection(s: SocketModel, unix: bool, there: bool) -> SocketModel {
    if unix {
        SocketModel { stream_unix: there, ..s }
    } else {
        SocketModel { stream: there, ..s }
    }
}

/// The table in which the socket that `fd` names has its connection back.
pub open spec fn connection_back(f: FdModel, fd: int, unix: bool) -> FdModel {
    match sock(f, fd) {
        Some(n) => f.with_socket(n, with_connection(f.sockets[n], unix, true)),
        None => f,
    }
}

fn mark_connection(s: &mut SocketInner, unix: bool, there: bool)
    ensures
        final(s)@ == with_connection(old(s)@, unix, there),
{
    if unix {
        s.stream_unix = there;
    } else {
        s.stream = there;
    }
}

fn set_connection(fds: &mut FdTable, n: u64, unix: bool, there: bool)
    requires
        old(fds)@.wf(),
        old(fds)@.sockets.contains_key(n),
    ensures
        final(fds)@ == old(fds)@.with_socket(
            n,
            with_connection(old(fds)@.sockets[n], unix, there),
        ),
        final(fds)@.wf(),
{
    let mut s: SocketInner = fds.take_socket(n);
    mark_connection(&mut s, unix, there);
    fds.put_socket(n, s);
}

fn give_connection_back(fds: &mut FdTable, fd: i64, unix: bool)
    requires
        old(fds)@.wf(),
    ensures
        final(fds)@ == connection_back(old(fds)@, fd as int, unix),
        final(fds)@.wf(),
        final(fds)@.slots == old(fds)@.slots,
{
    match find_socket(fds, fd) {
        Some(n) => {
            set_connection(fds, n, unix, true);
        },
        None => {},
    }
}

/// What is left to do of a `sendto`.
pub enum SendStep {
    Done(i64),
    /// Send the bytes over the connection of the socket; `sendto_done` finishes.
    Send { socket: u64, unix: bool, bytes: Vec<u8> },
}

pub enum SendModel {
    Done(int),
    Send { socket: u64, unix: bool, bytes: Seq<u8> },
}

impl View for SendStep {
    type V = SendModel;

    open spec fn view(&self) -> SendModel {
        match self {
            SendStep::Done(r) => SendModel::Done(*r as int),
            SendStep::Send { socket, unix, bytes } => SendModel::Send {
                socket: *socket,
                unix: *unix,
                bytes: bytes@,
            },
        }
    }
}

/// Handing `b` to the connection of socket `n`. A socket shut down for writing has a
/// broken pipe; one without a connection is not connected.
pub open spec fn send_from(f: FdModel, n: u64, b: Seq<u8>) -> (SendModel, FdModel) {
    let s = f.sockets[n];
    let unix = s.family_unix;
    if s.shut_wr {
        (SendModel::Done(-EPIPE), f)
    } else if !connected(s, unix) {
        (SendModel::Done(-ENOTCONN), f)
    } else {
        (
            SendModel::Send { socket: n, unix, bytes: b },
            f.with_socket(n, with_connection(s, unix, false)),
        )
    }
}

/// What `sendto` does.
pub open spec fn sendto_after(f: FdModel, m: Seq<u8>, a: [i64; 6]) -> (SendModel, FdModel) {
    match sock(f, a[0] as int) {
        None => (SendModel::Done(-EBADF), f),
        Some(n) => if !in_bounds(m.len(), a[1] as int, a[2] as int) {
            (SendModel::Done(-EFAULT), f)
        } else {
            send_from(f, n, window(m, a[1] as int, a[2] as int))
        },
    }
}

/// `sendto(fd, buf, len, flags, addr, addrlen)`. Flags and address are not used: the
/// peer is that of the connection.
pub fn sendto(fds: &mut FdTable, mem: &[u8], a: [i64; 6]) -> (r: SendStep)
    requires
        old(fds)@.wf(),
    ensures
        r@ == sendto_after(old(fds)@, mem@, a).0,
        final(fds)@ == sendto_after(old(fds)@, mem@, a).1,
        final(fds)@.wf(),
{
    let n: u64 = match find_socket(fds, a[0]) {
        Some(n) => n,
        None => {
            return SendStep::Done(-EBADF);
        },
    };
    let bytes: Vec<u8> = match guest_slice(mem, a[1], a[2]) {
        Ok(b) => b,
        Err(e) => {
            return SendStep::Done(e);
        },
    };
    let s: &SocketInner = fds.socket(n);
    let unix: bool = s.family_unix;
    if s.shut_wr {
        return SendStep::Done(-EPIPE);
    }
    let there: bool = if unix {
        s.stream_unix
    } else {
        s.stream
    };
    if !there {
        return SendStep::Done(-ENOTCONN);
    }
    set_connection(fds, n, unix, false);
    SendStep::Send { socket: n, unix, bytes }
}

/// What the end of a `sendto` does.
pub open spec fn sendto_done_after(f: FdModel, fd: int, unix: bool, sent: Option<usize>) -> (
    int,
    FdModel,
) {
    (
        match sent {
            Some(n) => n as int,
            None => -EIO,
        },
        connection_back(f, fd, unix),
    )
}

/// Finish a `sendto`: how many bytes the host sent, or `None` where it failed.
pub fn sendto_done(fds: &mut FdTable, fd: i64, unix: bool, sent: Option<usize>) -> (r: i64)
    requires
        old(fds)@.wf(),
        sent matches Some(n) ==> n <= i64::MAX,
    ensures
        (r as int, final(fds)@) == sendto_done_after(old(fds)@, fd as int, unix, sent),
        final(fds)@.wf(),
{
    give_connection_back(fds, fd, unix);
    match sent {
        Some(n) => n as i64,
        None => -EIO,
    }
}

/// What is left to do of a `recvfrom`.
#[derive(Clone, Copy, PartialEq, Eq, Structural, Debug)]
pub enum RecvStep {
    Done(i64),
    /// Receive up to `len` bytes over the connection of the socket; `recvfrom_done`
    /// finishes.
    Recv { socket: u64, unix: bool, len: usize },
}

/// Waiting for bytes on the connection of socket `n`. A socket shut down for reading
/// is at its end; one without a connection is not connected.
pub open spec fn recv_from(f: FdModel, n: u64, len: int) -> (RecvStep, FdModel) {
    let s = f.sockets[n];
    let unix = s.family_unix;
    if s.shut_rd {
        (RecvStep::Done(0), f)
    } else if !connected(s, unix) {
        (RecvStep::Done((-ENOTCONN) as i64), f)
    } else {
        (
            RecvStep::Recv { socket: n, unix, len: len as usize },
            f.with_socket(n, with_connection(s, unix, false)),
        )
    }
}

/// The memory after the bytes `d` were received, with the peer's address behind them
/// where it is asked for. Only an internet socket reports its peer.
pub open spec fn delivered(f: FdModel, m: Seq<u8>, a: [i64; 6], unix: bool, d: Seq<u8>) -> Seq<
    u8,
> {
    let m1 = splice(m, a[1] as int, d);
    if unix {
        m1
    } else {
        addr_written(m1, a[4] as int, a[5] as int, peer_image(f, a[0] as int), 16)
    }
}

/// What a `recvfrom` leaves behind.
pub struct RecvAfter {
    pub step: RecvStep,
    pub fds: FdModel,
    pub mem: Seq<u8>,
}

pub open spec fn recv_ends(ret: int, f: FdModel, m: Seq<u8>) -> RecvAfter {
    RecvAfter { step: RecvStep::Done(ret as i64), fds: f, mem: m }
}

/// Receiving on socket `n`. Bytes that were looked at before come first; without any,
/// the host is to receive.
pub open spec fn receive(f: FdModel, m: Seq<u8>, n: u64, a: [i64; 6]) -> RecvAfter {
    let s = f.sockets[n];
    let data = front(s.peek_buf, a[2] as int);
    if !s.shut_rd && s.peek_buf.len() > 0 {
        recv_ends(
            data.len() as int,
            f.with_socket(n, SocketModel { peek_buf: s.peek_buf.skip(data.len() as int), ..s }),
            delivered(f, m, a, s.family_unix, data),
        )
    } else {
        let (step, fds) = recv_from(f, n, a[2] as int);
        RecvAfter { step, fds, mem: m }
    }
}

/// What `recvfrom` does.
pub open spec fn recvfrom_after(f: FdModel, m: Seq<u8>, a: [i64; 6]) -> RecvAfter {
    match sock(f, a[0] as int) {
        None => recv_ends(-EBADF, f, m),
        Some(n) => if a[2] == 0 {
            recv_ends(-EINVAL, f, m)
        } else if !in_bounds(m.len(), a[1] as int, a[2] as int) {
            recv_ends(-EFAULT, f, m)
        } else if !f.sockets[n].family_unix && addr_refusal(
            m.len(),
            a[4] as int,
            16,
            a[5] as int,
        ) {
            recv_ends(-EFAULT, f, m)
        } else {
            receive(f, m, n, a)
        },
    }
}

/// Write the bytes `d` where they are to be received, and the peer's address where it is
/// asked for.
fn deliver(mem: &mut [u8], a: [i64; 6], unix: bool, peer: &Vec<u8>, d: &Vec<u8>)
    requires
        d@.len() <= a[2],
        in_bounds(old(mem)@.len(), a[1] as int, a[2] as int),
        peer@.len() == 16,
    ensures
        final(mem)@.len() == old(mem)@.len(),
        ({
            let m1 = splice(old(mem)@, a[1] as int, d@);
            final(mem)@ == (if unix {
                m1
            } else {
                addr_written(m1, a[4] as int, a[5] as int, peer@, 16)
            })
        }),
{
    let _ = guest_write(mem, a[1], d.as_slice());
    if !unix {
        write_addr(mem, a[4], a[5], peer, 16);
    }
}

/// `recvfrom(fd, buf, len, flags, addr, addrlen)`. The flags are not used.
pub fn recvfrom(fds: &mut FdTable, mem: &mut [u8], a: [i64; 6]) -> (r: RecvStep)
    requires
        old(fds)@.wf(),
    ensures
        r == recvfrom_after(old(fds)@, old(mem)@, a).step,
        final(fds)@ == recvfrom_after(old(fds)@, old(mem)@, a).fds,
        final(mem)@ == recvfrom_after(old(fds)@, old(mem)@, a).mem,
        final(mem)@.len() == old(mem)@.len(),
        final(fds)@.wf(),
{
    let n: u64 = match find_socket(fds, a[0]) {
        Some(n) => n,
        None => {
            return RecvStep::Done(-EBADF);
        },
    };
    if a[2] == 0 {
        return RecvStep::Done(-EINVAL);
    }
    match check_range(mem.len(), a[1], a[2]) {
        Ok(_) => {},
        Err(e) => {
            return RecvStep::Done(e);
        },
    }
    let s: &SocketInner = fds.socket(n);
    let unix: bool = s.family_unix;
    if !unix {
        match check_addr(mem.len(), a[4], 16, a[5]) {
            Ok(_) => {},
            Err(e) => {
                return RecvStep::Done(e);
            },
        }
    }
    if s.shut_rd {
        return RecvStep::Done(0);
    }
    if s.peek_buf.len() > 0 {
        let peer: Vec<u8> = encode_peer(fds, a[0]);
        let data: Vec<u8> = take_peeked(fds, n, a[2] as u64, false);
        deliver(mem, a, unix, &peer, &data);
        return RecvStep::Done(data.len() as i64);
    }
    let there: bool = if unix {
        s.stream_unix
    } else {
        s.stream
    };
    if !there {
        return RecvStep::Done(-ENOTCONN);
    }
    set_connection(fds, n, unix, false);
    RecvStep::Recv { socket: n, unix, len: a[2] as usize }
}

/// The address that is reported of the peer of the socket that `fd` names:
/// 127.0.0.1 with port zero where no IPv4 peer is known.
pub open spec fn peer_image(f: FdModel, fd: int) -> Seq<u8> {
    match sock(f, fd) {
        Some(n) => match f.sockets[n].peer_addr {
            Some(AddrModel::V4 { port, addr }) => v4_image(port, addr),
            _ => v4_image(0, seq![127u8, 0u8, 0u8, 1u8]),
        },
        None => v4_image(0, seq![127u8, 0u8, 0u8, 1u8]),
    }
}

fn encode_peer(fds: &FdTable, fd: i64) -> (r: Vec<u8>)
    requires
        fds@.wf(),
    ensures
        r@ == peer_image(fds@, fd as int),
        r@.len() == 16,
{
    let local: [u8; 4] = [127, 0, 0, 1];
    assert(local@ =~= seq![127u8, 0u8, 0u8, 1u8]);
    match find_socket(fds, fd) {
        Some(n) => match &fds.socket(n).peer_addr {
            Some(SockAddr::V4 { port, addr }) => encode_v4(*port, addr),
            _ => encode_v4(0, &local),
        },
        None => encode_v4(0, &local),
    }
}

/// What the end of receiving does with the bytes that came, if any did.
pub open spec fn recvfrom_done_after(
    f: FdModel,
    m: Seq<u8>,
    a: [i64; 6],
    unix: bool,
    data: Option<Seq<u8>>,
) -> After {
    After {
        ret: match data {
            None => -EIO,
            Some(d) => d.len() as int,
        },
        fds: connection_back(f, a[0] as int, unix),
        mem: match data {
            None => m,
            Some(d) => delivered(f, m, a, unix, d),
        },
    }
}

/// Finish a `recvfrom` with the bytes received, or with `None` where the host failed.
/// No bytes means that the peer has closed the connection.
pub fn recvfrom_done(
    fds: &mut FdTable,
    mem: &mut [u8],
    a: [i64; 6],
    unix: bool,
    data: Option<Vec<u8>>,
) -> (r: i64)
    requires
        old(fds)@.wf(),
        data matches Some(d) ==> d@.len() <= a[2] && in_bounds(
            old(mem)@.len(),
            a[1] as int,
            a[2] as int,
        ),
    ensures
        final(fds)@.wf(),
        final(mem)@.len() == old(mem)@.len(),
        (After { ret: r as int, fds: final(fds)@, mem: final(mem)@ }) == recvfrom_done_after(
            old(fds)@,
            old(mem)@,
            a,
            unix,
            bytes_view(data),
        ),
{
    let peer: Vec<u8> = encode_peer(fds, a[0]);
    give_connection_back(fds, a[0], unix);
    match data {
        None => -EIO,
        Some(d) => {
            deliver(mem, a, unix, &peer, &d);
            d.len() as i64
        },
    }
}

/// The socket after the option was set. Three options are kept; any other is
/// accepted and has no effect.
pub open spec fn option_set(s: SocketModel, level: i32, name: i32) -> SocketModel {
    if level == SOL_SOCKET && name == SO_REUSEADDR {
        SocketModel { so_reuseaddr: true, ..s }
    } else if level == SOL_SOCKET && name == SO_KEEPALIVE {
        SocketModel { so_keepalive: true, ..s }
    } else if level == IPPROTO_TCP && name == TCP_NODELAY {
        SocketModel { tcp_nodelay: true, ..s }
    } else {
        s
    }
}

/// What `setsockopt` does. The value has no effect: an option that is known is switched
/// on.
pub open spec fn setsockopt_after(f: FdModel, m: Seq<u8>, a: [i64; 6]) -> (int, FdModel) {
    if !(0 <= a[0] <= u32::MAX) {
        (-EBADF, f)
    } else if a[3] != 0 && a[4] > 0 && !in_bounds(m.len(), a[3] as int, a[4] as int) {
        (-EFAULT, f)
    } else {
        match sock(f, a[0] as int) {
            None => (-EBADF, f),
            Some(n) => (
                0,
                f.with_socket(n, option_set(f.sockets[n], a[1] as i32, a[2] as i32)),
            ),
        }
    }
}

/// `setsockopt(fd, level, name, value, len)`. The value is not looked at, but must
/// be readable.
pub fn setsockopt(fds: &mut FdTable, mem: &[u8], a: [i64; 6]) -> (r: i64)
    requires
        old(fds)@.wf(),
    ensures
        final(fds)@.wf(),
        r == setsockopt_after(old(fds)@, mem@, a).0,
        final(fds)@ == setsockopt_after(old(fds)@, mem@, a).1,
{
    if fd_arg(a[0]).is_none() {
        return -EBADF;
    }
    let level: i32 = a[1] as i32;
    let name: i32 = a[2] as i32;
    if a[3] != 0 && a[4] > 0 {
        match check_range(mem.len(), a[3], a[4]) {
            Ok(_) => {},
            Err(e) => {
                return e;
            },
        }
    }
    match find_socket(fds, a[0]) {
        Some(n) => {
            set_option(fds, n, level, name);
            0
        },
        None => -EBADF,
    }
}

fn switch_on(s: &mut SocketInner, level: i32, name: i32)
    ensures
        final(s)@ == option_set(old(s)@, level, name),
{
    if level == SOL_SOCKET && name == SO_REUSEADDR {
        s.so_reuseaddr = true;
    } else if level == SOL_SOCKET && name == SO_KEEPALIVE {
        s.so_keepalive = true;
    } else if level == IPPROTO_TCP && name == TCP_NODELAY {
        s.tcp_nodelay = true;
    }
}

fn set_option(fds: &mut FdTable, n: u64, level: i32, name: i32)
    requires
        old(fds)@.wf(),
        old(fds)@.sockets.contains_key(n),
    ensures
        final(fds)@ == old(fds)@.with_socket(n, option_set(old(fds)@.sockets[n], level, name)),
        final(fds)@.wf(),
{
    let mut s: SocketInner = fds.take_socket(n);
    switch_on(&mut s, level, name);
    fds.put_socket(n, s);
}

/// One for true, zero for false.
pub open spec fn flag(b: bool) -> i32 {
    if b {
        1
    } else {
        0
    }
}

fn to_flag(b: bool) -> (r: i32)
    ensures
        r == flag(b),
{
    if b {
        1
    } else {
        0
    }
}

/// The value of an option. An unknown option is zero.
pub open spec fn option_value(s: SocketModel, level: i32, name: i32) -> i32 {
    if level == SOL_SOCKET && name == SO_TYPE {
        1
    } else if level == SOL_SOCKET && name == SO_DOMAIN {
        2
    } else if level == SOL_SOCKET && name == SO_ERROR {
        s.last_error
    } else if level == SOL_SOCKET && name == SO_ACCEPTCONN {
        flag(s.is_acceptor)
    } else if level == SOL_SOCKET && name == SO_REUSEADDR {
        flag(s.so_reuseaddr)
    } else if level == SOL_SOCKET && name == SO_KEEPALIVE {
        flag(s.so_keepalive)
    } else if level == IPPROTO_TCP && name == TCP_NODELAY {
        flag(s.tcp_nodelay)
    } else {
        0
    }
}

/// The socket after the option was read: reading the last error clears it.
pub open spec fn option_read(s: SocketModel, level: i32, name: i32) -> SocketModel {
    if level == SOL_SOCKET && name == SO_ERROR {
        SocketModel { last_error: 0, ..s }
    } else {
        s
    }
}

/// Why `getsockopt` cannot read an option.
pub open spec fn getsockopt_refusal(f: FdModel, a: [i64; 6]) -> Option<int> {
    if !(0 <= a[0] <= u32::MAX) {
        Some(-EBADF)
    } else if a[3] == 0 {
        Some(-EFAULT)
    } else if sock(f, a[0] as int) is None {
        Some(-EBADF)
    } else {
        None
    }
}

fn read_option(fds: &mut FdTable, n: u64, level: i32, name: i32) -> (r: i32)
    requires
        old(fds)@.wf(),
        old(fds)@.sockets.contains_key(n),
    ensures
        r == option_value(old(fds)@.sockets[n], level, name),
        final(fds)@ == old(fds)@.with_socket(
            n,
            option_read(old(fds)@.sockets[n], level, name),
        ),
        final(fds)@.wf(),
{
    let mut s: SocketInner = fds.take_socket(n);
    let value: i32 = if level == SOL_SOCKET && name == SO_TYPE {
        1
    } else if level == SOL_SOCKET && name == SO_DOMAIN {
        2
    } else if level == SOL_SOCKET && name == SO_ERROR {
        let e: i32 = s.last_error;
        s.last_error = 0;
        e
    } else if level == SOL_SOCKET && name == SO_ACCEPTCONN {
        to_flag(s.is_acceptor)
    } else if level == SOL_SOCKET && name == SO_REUSEADDR {
        to_flag(s.so_reuseaddr)
    } else if level == SOL_SOCKET && name == SO_KEEPALIVE {
        to_flag(s.so_keepalive)
    } else if level == IPPROTO_TCP && name == TCP_NODELAY {
        to_flag(s.tcp_nodelay)
    } else {
        0
    };
    fds.put_socket(n, s);
    value
}

/// What `getsockopt` does.
pub open spec fn getsockopt_after(f: FdModel, m: Seq<u8>, a: [i64; 6]) -> After {
    match getsockopt_refusal(f, a) {
        Some(e) => After { ret: e, fds: f, mem: m },
        None => {
            let n = sock(f, a[0] as int)->Some_0;
            let s = f.sockets[n];
            let v = option_value(s, a[1] as i32, a[2] as i32);
            let fds = f.with_socket(n, option_read(s, a[1] as i32, a[2] as i32));
            if addr_refusal(m.len(), a[3] as int, 4, a[4] as int) {
                After { ret: -EFAULT, fds, mem: m }
            } else {
                After {
                    ret: 0,
                    fds,
                    mem: addr_written(m, a[3] as int, a[4] as int, le(word32(v), 4), 4),
                }
            }
        },
    }
}

/// `getsockopt(fd, level, name, value, len)`: the value is written as four bytes,
/// and so is its length where it is asked for. Where one of the two cannot be written,
/// neither is.
pub fn getsockopt(fds: &mut FdTable, mem: &mut [u8], a: [i64; 6]) -> (r: i64)
    requires
        old(fds)@.wf(),
    ensures
        final(fds)@.wf(),
        final(mem)@.len() == old(mem)@.len(),
        (After { ret: r as int, fds: final(fds)@, mem: final(mem)@ }) == getsockopt_after(
            old(fds)@,
            old(mem)@,
            a,
        ),
{
    if fd_arg(a[0]).is_none() {
        return -EBADF;
    }
    if a[3] == 0 {
        return -EFAULT;
    }
    let n: u64 = match find_socket(fds, a[0]) {
        Some(n) => n,
        None => {
            return -EBADF;
        },
    };
    let value: i32 = read_option(fds, n, a[1] as i32, a[2] as i32);
    match check_addr(mem.len(), a[3], 4, a[4]) {
        Ok(_) => {},
        Err(e) => {
            return e;
        },
    }
    let mut b: Vec<u8> = Vec::new();
    push_le(&mut b, to_word32(value) as u64, 4);
    assert(b@ =~= le(word32(value), 4));
    write_addr(mem, a[3], a[4], &b, 4);
    0
}

/// The address that an internet socket reports as its own: the one it is bound to,
/// else that of its peer, else the null address. `None` for one that is not IPv4.
pub open spec fn own_image(s: SocketModel) -> Option<Seq<u8>> {
    match s.bound {
        Some(AddrModel::V4 { port, addr }) => Some(v4_image(port, addr)),
        Some(_) => None,
        None => match s.peer_addr {
            Some(AddrModel::V4 { port, addr }) => Some(v4_image(port, addr)),
            Some(_) => None,
            None => Some(v4_image(0, seq![0u8, 0u8, 0u8, 0u8])),
        },
    }
}

/// The path that a Unix socket is bound to.
pub open spec fn own_path(s: SocketModel) -> Option<Seq<u8>> {
    match s.bound {
        Some(AddrModel::Unix { path }) => Some(path),
        _ => None,
    }
}

/// Why `getsockname` and `getpeername` cannot report: a bad descriptor or buffer.
pub open spec fn name_refusal(f: FdModel, m: Seq<u8>, a: [i64; 6]) -> Option<int> {
    if !(0 <= a[0] <= u32::MAX) {
        Some(-EBADF)
    } else if a[1] == 0 {
        Some(-EFAULT)
    } else {
        match sock(f, a[0] as int) {
            None => Some(-EBADF),
            Some(n) => if addr_refusal(
                m.len(),
                a[1] as int,
                if f.sockets[n].family_unix {
                    110
                } else {
                    16
                },
                a[2] as int,
            ) {
                Some(-EFAULT)
            } else {
                None
            },
        }
    }
}

fn name_socket(fds: &FdTable, mem: &[u8], a: [i64; 6]) -> (r: Result<u64, i64>)
    requires
        fds@.wf(),
    ensures
        match name_refusal(fds@, mem@, a) {
            Some(e) => r == Err::<u64, i64>(e as i64),
            None => r matches Ok(n) && sock(fds@, a[0] as int) == Some(n),
        },
{
    if fd_arg(a[0]).is_none() {
        return Err(-EBADF);
    }
    if a[1] == 0 {
        return Err(-EFAULT);
    }
    let n: u64 = match find_socket(fds, a[0]) {
        Some(n) => n,
        None => {
            return Err(-EBADF);
        },
    };
    let size: i64 = if fds.socket(n).family_unix {
        110
    } else {
        16
    };
    match check_addr(mem.len(), a[1], size, a[2]) {
        Ok(_) => Ok(n),
        Err(e) => Err(e),
    }
}

/// What `getsockname` does.
pub open spec fn getsockname_after(f: FdModel, m: Seq<u8>, a: [i64; 6]) -> (int, Seq<u8>) {
    match name_refusal(f, m, a) {
        Some(e) => (e, m),
        None => {
            let s = f.sockets[sock(f, a[0] as int)->Some_0];
            if s.family_unix {
                (
                    0,
                    addr_written(
                        m,
                        a[1] as int,
                        a[2] as int,
                        unix_image(own_path(s)),
                        unix_len(own_path(s)),
                    ),
                )
            } else {
                match own_image(s) {
                    None => (-EINVAL, m),
                    Some(i) => (0, addr_written(m, a[1] as int, a[2] as int, i, 16)),
                }
            }
        },
    }
}

/// `getsockname(fd, addr, addrlen)`.
pub fn getsockname(fds: &FdTable, mem: &mut [u8], a: [i64; 6]) -> (r: i64)
    requires
        fds@.wf(),
    ensures
        final(mem)@.len() == old(mem)@.len(),
        (r as int, final(mem)@) == getsockname_after(fds@, old(mem)@, a),
{
    let n: u64 = match name_socket(fds, mem, a) {
        Ok(n) => n,
        Err(e) => {
            return e;
        },
    };
    let s: &SocketInner = fds.socket(n);
    if s.family_unix {
        let path: Option<Vec<u8>> = match &s.bound {
            Some(SockAddr::Unix { path }) => Some(copy_bytes(path)),
            _ => None,
        };
        assert(bytes_view(path) == own_path(s@));
        let image: Vec<u8> = encode_unix(&path);
        let len: u64 = reported_len(&path);
        write_addr(mem, a[1], a[2], &image, len);
        return 0;
    }
    let null: [u8; 4] = [0, 0, 0, 0];
    assert(null@ =~= seq![0u8, 0u8, 0u8, 0u8]);
    let image: Vec<u8> = match &s.bound {
        Some(SockAddr::V4 { port, addr }) => encode_v4(*port, addr),
        Some(_) => {
            return -EINVAL;
        },
        None => match &s.peer_addr {
            Some(SockAddr::V4 { port, addr }) => encode_v4(*port, addr),
            Some(_) => {
                return -EINVAL;
            },
            None => encode_v4(0, &null),
        },
    };
    write_addr(mem, a[1], a[2], &image, 16);
    0
}

/// What `getpeername` does.
pub open spec fn getpeername_after(f: FdModel, m: Seq<u8>, a: [i64; 6]) -> (int, Seq<u8>) {
    match name_refusal(f, m, a) {
        Some(e) => (e, m),
        None => {
            let s = f.sockets[sock(f, a[0] as int)->Some_0];
            if s.family_unix {
                match s.peer_path {
                    None => (-ENOTCONN, m),
                    Some(p) => (
                        0,
                        addr_written(
                            m,
                            a[1] as int,
                            a[2] as int,
                            unix_image(Some(p)),
                            unix_len(Some(p)),
                        ),
                    ),
                }
            } else {
                match s.peer_addr {
                    None => (-ENOTCONN, m),
                    Some(AddrModel::V4 { port, addr }) => (
                        0,
                        addr_written(m, a[1] as int, a[2] as int, v4_image(port, addr), 16),
                    ),
                    Some(_) => (-EINVAL, m),
                }
            }
        },
    }
}

/// `getpeername(fd, addr, addrlen)`. A socket without a known peer is not connected.
pub fn getpeername(fds: &FdTable, mem: &mut [u8], a: [i64; 6]) -> (r: i64)
    requires
        fds@.wf(),
    ensures
        final(mem)@.len() == old(mem)@.len(),
        (r as int, final(mem)@) == getpeername_after(fds@, old(mem)@, a),
{
    let n: u64 = match name_socket(fds, mem, a) {
        Ok(n) => n,
        Err(e) => {
            return e;
        },
    };
    let s: &SocketInner = fds.socket(n);
    if s.family_unix {
        if s.peer_path.is_none() {
            return -ENOTCONN;
        }
        let image: Vec<u8> = encode_unix(&s.peer_path);
        let len: u64 = reported_len(&s.peer_path);
        write_addr(mem, a[1], a[2], &image, len);
        return 0;
    }
    let image: Vec<u8> = match &s.peer_addr {
        None => {
            return -ENOTCONN;
        },
        Some(SockAddr::V4 { port, addr }) => encode_v4(*port, addr),
        Some(_) => {
            return -EINVAL;
        },
    };
    write_addr(mem, a[1], a[2], &image, 16);
    0
}

/// What is left to do of a `shutdown`.
#[derive(Clone, Copy, PartialEq, Eq, Structural, Debug)]
pub enum ShutdownStep {
    Done(i64),
    /// Close the writing half of the connection of the socket. Then the result is zero.
    CloseWrite { socket: u64 },
}

/// What `shutdown` does: the directions are remembered as shut. The connection stays,
/// so that the other direction goes on.
pub open spec fn shutdown_after(f: FdModel, a: [i64; 6]) -> (ShutdownStep, FdModel) {
    let how = a[1] as i32;
    let rd = how == SHUT_RD || how == SHUT_RDWR;
    let wr = how == SHUT_WR || how == SHUT_RDWR;
    if !(0 <= a[0] <= u32::MAX) {
        (ShutdownStep::Done((-EBADF) as i64), f)
    } else if !rd && !wr {
        (ShutdownStep::Done((-EINVAL) as i64), f)
    } else {
        match sock(f, a[0] as int) {
            None => (ShutdownStep::Done((-EBADF) as i64), f),
            Some(n) => {
                let s = f.sockets[n];
                (
                    if wr && s.stream {
                        ShutdownStep::CloseWrite { socket: n }
                    } else {
                        ShutdownStep::Done(0)
                    },
                    f.with_socket(
                        n,
                        SocketModel {
                            shut_rd: s.shut_rd || rd,
                            shut_wr: s.shut_wr || wr,
                            ..s
                        },
                    ),
                )
            },
        }
    }
}

/// Remember that the socket `n` is shut in these directions.
fn shut(fds: &mut FdTable, n: u64, rd: bool, wr: bool)
    requires
        old(fds)@.wf(),
        old(fds)@.sockets.contains_key(n),
    ensures
        final(fds)@ == old(fds)@.with_socket(
            n,
            SocketModel {
                shut_rd: old(fds)@.sockets[n].shut_rd || rd,
                shut_wr: old(fds)@.sockets[n].shut_wr || wr,
                ..old(fds)@.sockets[n]
            },
        ),
        final(fds)@.wf(),
{
    let mut s: SocketInner = fds.take_socket(n);
    s.shut_rd = s.shut_rd || rd;
    s.shut_wr = s.shut_wr || wr;
    fds.put_socket(n, s);
}

/// `shutdown(fd, how)`.
pub fn shutdown(fds: &mut FdTable, a: [i64; 6]) -> (r: ShutdownStep)
    requires
        old(fds)@.wf(),
    ensures
        r == shutdown_after(old(fds)@, a).0,
        final(fds)@ == shutdown_after(old(fds)@, a).1,
        final(fds)@.wf(),
{
    if fd_arg(a[0]).is_none() {
        return ShutdownStep::Done(-EBADF);
    }
    let how: i32 = a[1] as i32;
    let rd: bool = how == SHUT_RD || how == SHUT_RDWR;
    let wr: bool = how == SHUT_WR || how == SHUT_RDWR;
    if !rd && !wr {
        return ShutdownStep::Done(-EINVAL);
    }
    match find_socket(fds, a[0]) {
        None => ShutdownStep::Done(-EBADF),
        Some(n) => {
            shut(fds, n, rd, wr);
            if wr && fds.socket(n).stream {
                ShutdownStep::CloseWrite { socket: n }
            } else {
                ShutdownStep::Done(0)
            }
        },
    }
}

/// What `listen` does.
pub open spec fn listen_after(f: FdModel, a: [i64; 6]) -> (int, FdModel) {
    if !(0 <= a[0] <= u32::MAX) {
        (-EBADF, f)
    } else if a[1] < 0 {
        (-EINVAL, f)
    } else {
        match sock(f, a[0] as int) {
            None => (-EBADF, f),
            Some(n) => if f.sockets[n].bound is None {
                (-EDESTADDRREQ, f)
            } else {
                (
                    0,
                    f.with_socket(
                        n,
                        SocketModel { listen_backlog: Some(a[1] as i32), ..f.sockets[n] },
                    ),
                )
            },
        }
    }
}

/// `listen(fd, backlog)`.
pub fn listen(fds: &mut FdTable, a: [i64; 6]) -> (r: i64)
    requires
        old(fds)@.wf(),
    ensures
        final(fds)@.wf(),
        r == listen_after(old(fds)@, a).0,
        final(fds)@ == listen_after(old(fds)@, a).1,
{
    if fd_arg(a[0]).is_none() {
        return -EBADF;
    }
    if a[1] < 0 {
        return -EINVAL;
    }
    match find_socket(fds, a[0]) {
        None => -EBADF,
        Some(n) => {
            if fds.socket(n).bound.is_none() {
                return -EDESTADDRREQ;
            }
            let mut s: SocketInner = fds.take_socket(n);
            s.listen_backlog = Some(a[1] as i32);
            fds.put_socket(n, s);
            0
        },
    }
}

/// Each of these buffers starts at a guest address and has a guest length.
pub open spec fn guest_buffers(v: Seq<(i64, i64)>) -> bool {
    forall|i: int|
        0 <= i < v.len() ==> 0 <= (#[trigger] v[i]).0 <= u32::MAX && 0 <= v[i].1 <= u32::MAX
}

/// The buffers that the `struct msghdr` at `ptr` describes, and its flags. No
/// buffers where their count or their address is zero.
pub struct MsgHeader {
    pub buffers: Vec<(i64, i64)>,
    pub flags: i32,
    /// Whether there is a list of buffers at all.
    pub listed: bool,
}

pub open spec fn msg_iov_ptr(m: Seq<u8>, ptr: int) -> int {
    word_at(m, ptr + 8, 4) as int
}

pub open spec fn msg_iov_count(m: Seq<u8>, ptr: int) -> int {
    word_at(m, ptr + 12, 4) as int
}

/// Whether the message header at `ptr` has a list of buffers.
pub open spec fn msg_listed(m: Seq<u8>, ptr: int) -> bool {
    msg_iov_count(m, ptr) > 0 && msg_iov_ptr(m, ptr) != 0
}

/// The buffers of the message header at `ptr`, or `-EFAULT` where it or its list of
/// buffers does not lie inside the memory.
pub open spec fn msg_buffers(m: Seq<u8>, ptr: int) -> Result<Seq<(i64, i64)>, i64> {
    if !in_bounds(m.len(), ptr, 32) {
        Err((-EFAULT) as i64)
    } else if !msg_listed(m, ptr) {
        Ok(Seq::empty())
    } else if !in_bounds(m.len(), msg_iov_ptr(m, ptr), msg_iov_count(m, ptr) * 8) {
        Err((-EFAULT) as i64)
    } else {
        Ok(iovecs(window(m, msg_iov_ptr(m, ptr), msg_iov_count(m, ptr) * 8)))
    }
}

/// Read the message header at `ptr`.
fn read_msghdr(mem: &[u8], ptr: i64) -> (r: Result<MsgHeader, i64>)
    requires
        mem@.len() <= GUEST_LIMIT,
    ensures
        match r {
            Ok(h) => {
                &&& msg_buffers(mem@, ptr as int) == Ok::<Seq<(i64, i64)>, i64>(h.buffers@)
                &&& h.listed == msg_listed(mem@, ptr as int)
                &&& h.flags == int32(word_at(mem@, ptr + 24, 4))
                &&& in_bounds(mem@.len(), ptr as int, 32)
                &&& h.buffers@.len() <= 0x2000_0000
                &&& guest_buffers(h.buffers@)
            },
            Err(e) => msg_buffers(mem@, ptr as int) == Err::<Seq<(i64, i64)>, i64>(e),
        },
{
    let h: Vec<u8> = match guest_slice(mem, ptr, MSGHDR_SIZE) {
        Ok(h) => h,
        Err(e) => {
            return Err(e);
        },
    };
    proof {
        crate::bytes::pow256_values();
        assert(h@.subrange(8, 12) =~= window(mem@, ptr + 8, 4));
        assert(h@.subrange(12, 16) =~= window(mem@, ptr + 12, 4));
        assert(h@.subrange(24, 28) =~= window(mem@, ptr + 24, 4));
    }
    let iov_ptr: i64 = read_le(h.as_slice(), 8, 4) as i64;
    let iov_count: i64 = read_le(h.as_slice(), 12, 4) as i64;
    let flags: i32 = to_int32(read_le(h.as_slice(), 24, 4) as u32);
    if iov_count <= 0 || iov_ptr == 0 {
        let none: Vec<(i64, i64)> = Vec::new();
        assert(none@ =~= Seq::empty());
        return Ok(MsgHeader { buffers: none, flags, listed: false });
    }
    let b: Vec<u8> = match guest_slice(mem, iov_ptr, iov_count * 8) {
        Ok(b) => b,
        Err(e) => {
            return Err(e);
        },
    };
    Ok(MsgHeader { buffers: parse_iovecs(b.as_slice()), flags, listed: true })
}

/// The bytes in the buffers `v`, one after the other; `None` where one of them does
/// not lie inside the memory. A buffer at address zero, or of no length, is left out.
pub open spec fn gathered(m: Seq<u8>, v: Seq<(i64, i64)>) -> Option<Seq<u8>>
    decreases v.len(),
{
    if v.len() == 0 {
        Some(Seq::empty())
    } else {
        match gathered(m, v.drop_last()) {
            None => None,
            Some(s) => {
                let (base, len) = v.last();
                if base == 0 || len <= 0 {
                    Some(s)
                } else if in_bounds(m.len(), base as int, len as int) {
                    Some(s + window(m, base as int, len as int))
                } else {
                    None
                }
            },
        }
    }
}

proof fn gathered_prefix(m: Seq<u8>, v: Seq<(i64, i64)>, n: int)
    requires
        0 <= n <= v.len(),
        gathered(m, v.take(n)) is None,
    ensures
        gathered(m, v) is None,
    decreases v.len() - n,
{
    if n < v.len() {
        assert(v.take(n + 1).drop_last() =~= v.take(n));
        gathered_prefix(m, v, n + 1);
    } else {
        assert(v.take(n) =~= v);
    }
}

/// The payload of the message whose header is at `ptr`.
pub open spec fn msg_payload(m: Seq<u8>, ptr: int) -> Result<Seq<u8>, i64> {
    match msg_buffers(m, ptr) {
        Err(e) => Err(e),
        Ok(v) => match gathered(m, v) {
            Some(s) => Ok(s),
            None => Err((-EFAULT) as i64),
        },
    }
}

/// What a message header describes: the bytes in its buffers, its flags, and how
/// many bytes the buffers hold.
pub struct Message {
    pub payload: Vec<u8>,
    pub flags: i32,
    pub total: i64,
}

/// Read the message header at `msghdr_ptr` and gather the bytes in its buffers.
pub fn read_msghdr_iov(mem: &[u8], msghdr_ptr: i64) -> (r: Result<Message, i64>)
    requires
        mem@.len() <= GUEST_LIMIT,
    ensures
        match r {
            Ok(g) => {
                &&& msg_payload(mem@, msghdr_ptr as int) == Ok::<Seq<u8>, i64>(g.payload@)
                &&& g.flags == int32(word_at(mem@, msghdr_ptr + 24, 4))
                &&& msg_buffers(mem@, msghdr_ptr as int) matches Ok(v) && g.total == capacity(v)
            },
            Err(e) => msg_payload(mem@, msghdr_ptr as int) == Err::<Seq<u8>, i64>(e),
        },
{
    let h: MsgHeader = match read_msghdr(mem, msghdr_ptr) {
        Ok(h) => h,
        Err(e) => {
            return Err(e);
        },
    };
    let n: usize = h.buffers.len();
    let mut payload: Vec<u8> = Vec::new();
    let mut total: i64 = 0;
    let mut i: usize = 0;
    let ghost v = h.buffers@;
    assert(v.take(0) =~= Seq::empty());
    assert(v.skip(0) =~= v);
    assert(payload@ =~= Seq::empty());
    while i < n
        invariant
            i <= n,
            n == v.len(),
            v == h.buffers@,
            n <= 0x2000_0000,
            gathered(mem@, v.take(i as int)) == Some(payload@),
            0 <= total <= i * 0xffff_ffff,
            total + capacity(v.skip(i as int)) == capacity(v),
            forall|j: int|
                0 <= j < v.len() ==> 0 <= (#[trigger] v[j]).0 <= u32::MAX && 0 <= v[j].1
                    <= u32::MAX,
            msg_buffers(mem@, msghdr_ptr as int) == Ok::<Seq<(i64, i64)>, i64>(v),
        decreases n - i,
    {
        let (base, len): (i64, i64) = h.buffers[i];
        proof {
            assert(v.take(i + 1).drop_last() =~= v.take(i as int));
            assert(v.take(i + 1).last() == v[i as int]);
            assert(v.skip(i as int).drop_first() =~= v.skip(i + 1));
            assert(v.skip(i as int)[0] == v[i as int]);
        }
        total = total + len;
        if base != 0 && len > 0 {
            let data: Vec<u8> = match guest_slice(mem, base, len) {
                Ok(d) => d,
                Err(e) => {
                    proof {
                        gathered_prefix(mem@, v, i + 1);
                    }
                    return Err(e);
                },
            };
            push_bytes(&mut payload, data.as_slice());
        }
        i = i + 1;
    }
    assert(v.take(n as int) =~= v);
    assert(v.skip(n as int) =~= Seq::empty());
    Ok(Message { payload, flags: h.flags, total })
}

/// What is left to do of a `sendmsg`.
pub enum SendMsgStep {
    Done(i64),
    /// Send the bytes over the connection of the socket; `sendmsg_done` finishes, and
    /// puts the non-blocking flag back to what it was.
    Send { socket: u64, bytes: Vec<u8>, restore: Option<bool> },
}

pub enum SendMsgModel {
    Done(int),
    Send { socket: u64, bytes: Seq<u8>, restore: Option<bool> },
}

impl View for SendMsgStep {
    type V = SendMsgModel;

    open spec fn view(&self) -> SendMsgModel {
        match self {
            SendMsgStep::Done(r) => SendMsgModel::Done(*r as int),
            SendMsgStep::Send { socket, bytes, restore } => SendMsgModel::Send {
                socket: *socket,
                bytes: bytes@,
                restore: *restore,
            },
        }
    }
}

/// The socket with its connection handed to the host, and non-blocking for as long
/// as that lasts where the call asked not to wait.
pub open spec fn lent(s: SocketModel, dontwait: bool) -> SocketModel {
    SocketModel { stream: false, nonblock: s.nonblock || dontwait, ..s }
}

/// The non-blocking flag to put back.
pub open spec fn restore_flag(s: SocketModel, dontwait: bool) -> Option<bool> {
    if dontwait {
        Some(s.nonblock)
    } else {
        None
    }
}

/// The table in which the socket that `fd` names has its connection back, and its
/// non-blocking flag as it was.
pub open spec fn returned(f: FdModel, fd: int, restore: Option<bool>) -> FdModel {
    match sock(f, fd) {
        Some(n) => {
            let s = f.sockets[n];
            f.with_socket(
                n,
                SocketModel {
                    stream: true,
                    nonblock: match restore {
                        Some(b) => b,
                        None => s.nonblock,
                    },
                    ..s
                },
            )
        },
        None => f,
    }
}

fn lend_connection(fds: &mut FdTable, n: u64, dontwait: bool) -> (r: Option<bool>)
    requires
        old(fds)@.wf(),
        old(fds)@.sockets.contains_key(n),
    ensures
        r == restore_flag(old(fds)@.sockets[n], dontwait),
        final(fds)@ == old(fds)@.with_socket(n, lent(old(fds)@.sockets[n], dontwait)),
        final(fds)@.wf(),
{
    let mut s: SocketInner = fds.take_socket(n);
    let prev: bool = s.nonblock;
    s.nonblock = prev || dontwait;
    s.stream = false;
    fds.put_socket(n, s);
    if dontwait {
        Some(prev)
    } else {
        None
    }
}

fn return_connection(fds: &mut FdTable, fd: i64, restore: Option<bool>)
    requires
        old(fds)@.wf(),
    ensures
        final(fds)@ == returned(old(fds)@, fd as int, restore),
        final(fds)@.wf(),
{
    match find_socket(fds, fd) {
        Some(n) => {
            let mut s: SocketInner = fds.take_socket(n);
            let nonblock: bool = match restore {
                Some(b) => b,
                None => s.nonblock,
            };
            s.stream = true;
            s.nonblock = nonblock;
            fds.put_socket(n, s);
        },
        None => {},
    }
}

/// What `sendmsg` does.
pub open spec fn sendmsg_after(f: FdModel, m: Seq<u8>, a: [i64; 6]) -> (SendMsgModel, FdModel) {
    let dontwait = (a[2] as i32) & MSG_DONTWAIT != 0;
    match sock(f, a[0] as int) {
        None => (SendMsgModel::Done(-EBADF), f),
        Some(n) => match msg_payload(m, a[1] as int) {
            Err(e) => (SendMsgModel::Done(e as int), f),
            Ok(b) => {
                let s = f.sockets[n];
                if b.len() == 0 {
                    (SendMsgModel::Done(0), f)
                } else if s.shut_wr {
                    (SendMsgModel::Done(-EPIPE), f)
                } else if !s.stream {
                    (SendMsgModel::Done(-ENOTCONN), f)
                } else {
                    (
                        SendMsgModel::Send {
                            socket: n,
                            bytes: b,
                            restore: restore_flag(s, dontwait),
                        },
                        f.with_socket(n, lent(s, dontwait)),
                    )
                }
            },
        },
    }
}

/// `sendmsg(fd, msghdr, flags)`. Of the flags only `MSG_DONTWAIT` has an effect.
pub fn sendmsg(fds: &mut FdTable, mem: &[u8], a: [i64; 6]) -> (r: SendMsgStep)
    requires
        old(fds)@.wf(),
        mem@.len() <= GUEST_LIMIT,
    ensures
        r@ == sendmsg_after(old(fds)@, mem@, a).0,
        final(fds)@ == sendmsg_after(old(fds)@, mem@, a).1,
        final(fds)@.wf(),
{
    let dontwait: bool = (a[2] as i32) & MSG_DONTWAIT != 0;
    let n: u64 = match find_socket(fds, a[0]) {
        Some(n) => n,
        None => {
            return SendMsgStep::Done(-EBADF);
        },
    };
    let msg: Message = match read_msghdr_iov(mem, a[1]) {
        Ok(g) => g,
        Err(e) => {
            return SendMsgStep::Done(e);
        },
    };
    if msg.payload.len() == 0 {
        return SendMsgStep::Done(0);
    }
    let s: &SocketInner = fds.socket(n);
    if s.shut_wr {
        return SendMsgStep::Done(-EPIPE);
    }
    if !s.stream {
        return SendMsgStep::Done(-ENOTCONN);
    }
    let restore: Option<bool> = lend_connection(fds, n, dontwait);
    SendMsgStep::Send { socket: n, bytes: msg.payload, restore }
}

/// What the end of a `sendmsg` does.
pub open spec fn sendmsg_done_after(
    f: FdModel,
    fd: int,
    restore: Option<bool>,
    sent: Option<usize>,
) -> (int, FdModel) {
    (
        match sent {
            Some(n) => n as int,
            None => -EIO,
        },
        returned(f, fd, restore),
    )
}

/// Finish a `sendmsg`: how many bytes the host sent, or `None` where it failed.
pub fn sendmsg_done(
    fds: &mut FdTable,
    fd: i64,
    restore: Option<bool>,
    sent: Option<usize>,
) -> (r: i64)
    requires
        old(fds)@.wf(),
        sent matches Some(n) ==> n <= i64::MAX,
    ensures
        (r as int, final(fds)@) == sendmsg_done_after(old(fds)@, fd as int, restore, sent),
        final(fds)@.wf(),
{
    return_connection(fds, fd, restore);
    match sent {
        Some(n) => n as i64,
        None => -EIO,
    }
}

/// The memory after `data` was spread over the buffers `v`, each filled before the
/// next. A buffer that does not lie inside the memory swallows its share.
pub open spec fn scattered(m: Seq<u8>, v: Seq<(i64, i64)>, data: Seq<u8>) -> Seq<u8>
    decreases v.len(),
{
    if v.len() == 0 {
        m
    } else {
        let (base, len) = v[0];
        let part = front(data, len as int);
        scattered(
            if part.len() == 0 {
                m
            } else {
                written(m, base as int, part)
            },
            v.drop_first(),
            data.skip(part.len() as int),
        )
    }
}

/// Spread `data` over the buffers `spans`.
pub fn copy_bytes_to_spans(mem: &mut [u8], spans: &Vec<(i64, i64)>, data: &Vec<u8>)
    requires
        guest_buffers(spans@),
    ensures
        final(mem)@ == scattered(old(mem)@, spans@, data@),
        final(mem)@.len() == old(mem)@.len(),
{
    let n: usize = spans.len();
    let total: usize = data.len();
    let mut offset: usize = 0;
    let mut i: usize = 0;
    assert(spans@.skip(0) =~= spans@);
    assert(data@.skip(0) =~= data@);
    while i < n
        invariant
            i <= n,
            n == spans@.len(),
            offset <= total,
            total == data@.len(),
            mem@.len() == old(mem)@.len(),
            scattered(mem@, spans@.skip(i as int), data@.skip(offset as int)) == scattered(
                old(mem)@,
                spans@,
                data@,
            ),
            forall|j: int|
                0 <= j < spans@.len() ==> 0 <= (#[trigger] spans@[j]).0 <= u32::MAX && 0
                    <= spans@[j].1 <= u32::MAX,
        decreases n - i,
    {
        let (base, len): (i64, i64) = spans[i];
        let left: usize = total - offset;
        let take: usize = if (len as u64) < left as u64 {
            len as usize
        } else {
            left
        };
        let ghost rest = data@.skip(offset as int);
        proof {
            assert(spans@.skip(i as int)[0] == spans@[i as int]);
            assert(spans@.skip(i as int).drop_first() =~= spans@.skip(i + 1));
            assert(front(rest, len as int) =~= data@.subrange(offset as int, offset + take));
            assert(rest.skip(take as int) =~= data@.skip(offset + take));
        }
        if take > 0 {
            let _ = guest_write(
                mem,
                base,
                slice_subrange(data.as_slice(), offset, offset + take),
            );
        }
        offset = offset + take;
        i = i + 1;
    }
    assert(spans@.skip(n as int) =~= Seq::empty());
}

/// The memory after the message header at `ptr` was told that no control data came.
pub open spec fn control_cleared(m: Seq<u8>, ptr: int) -> Seq<u8> {
    written(m, ptr + 20, le(0, 4))
}

/// Tell the message header at `ptr` how long the control data is.
pub fn write_back_msghdr(mem: &mut [u8], msghdr_ptr: i64, msg_controllen: u32)
    requires
        msghdr_ptr <= i64::MAX - 20,
    ensures
        final(mem)@ == written(old(mem)@, msghdr_ptr + 20, le(msg_controllen as nat, 4)),
        final(mem)@.len() == old(mem)@.len(),
{
    let mut b: Vec<u8> = Vec::new();
    push_le(&mut b, msg_controllen as u64, 4);
    assert(b@ =~= le(msg_controllen as nat, 4));
    let _ = guest_write(mem, msghdr_ptr + 20, b.as_slice());
}

/// What is left to do of a `recvmsg`.
pub enum RecvMsgStep {
    Done(i64),
    /// Receive up to `len` bytes over the connection of the socket; `recvmsg_done`
    /// finishes with these buffers, and puts the non-blocking flag back.
    Recv { socket: u64, len: u64, spans: Vec<(i64, i64)>, restore: Option<bool> },
}

pub enum RecvMsgModel {
    Done(int),
    Recv { socket: u64, len: int, spans: Seq<(i64, i64)>, restore: Option<bool> },
}

impl View for RecvMsgStep {
    type V = RecvMsgModel;

    open spec fn view(&self) -> RecvMsgModel {
        match self {
            RecvMsgStep::Done(r) => RecvMsgModel::Done(*r as int),
            RecvMsgStep::Recv { socket, len, spans, restore } => RecvMsgModel::Recv {
                socket: *socket,
                len: *len as int,
                spans: spans@,
                restore: *restore,
            },
        }
    }
}

/// What a `recvmsg` leaves behind.
pub struct RecvMsgAfter {
    pub step: RecvMsgModel,
    pub fds: FdModel,
    pub mem: Seq<u8>,
}

pub open spec fn recvmsg_ends(ret: int, f: FdModel, m: Seq<u8>) -> RecvMsgAfter {
    RecvMsgAfter { step: RecvMsgModel::Done(ret), fds: f, mem: m }
}

/// Receiving a message on socket `n` into the buffers `v`. Bytes that were looked at
/// before come first; looking at them again leaves them there.
pub open spec fn recvmsg_into(
    f: FdModel,
    m: Seq<u8>,
    n: u64,
    v: Seq<(i64, i64)>,
    ptr: int,
    flags: i32,
) -> RecvMsgAfter {
    let s = f.sockets[n];
    let peek = flags & MSG_PEEK != 0;
    let dontwait = flags & MSG_DONTWAIT != 0;
    let data = front(s.peek_buf, capacity(v));
    if s.peek_buf.len() > 0 {
        recvmsg_ends(
            data.len() as int,
            if peek {
                f
            } else {
                f.with_socket(
                    n,
                    SocketModel { peek_buf: s.peek_buf.skip(data.len() as int), ..s },
                )
            },
            control_cleared(scattered(m, v, data), ptr),
        )
    } else if s.shut_rd {
        recvmsg_ends(0, f, m)
    } else if !s.stream {
        recvmsg_ends(-ENOTCONN, f, m)
    } else {
        RecvMsgAfter {
            step: RecvMsgModel::Recv {
                socket: n,
                len: capacity(v),
                spans: v,
                restore: restore_flag(s, dontwait),
            },
            fds: f.with_socket(n, lent(s, dontwait)),
            mem: m,
        }
    }
}

/// What `recvmsg` does.
pub open spec fn recvmsg_after(f: FdModel, m: Seq<u8>, a: [i64; 6]) -> RecvMsgAfter {
    match sock(f, a[0] as int) {
        None => recvmsg_ends(-EBADF, f, m),
        Some(n) => match msg_buffers(m, a[1] as int) {
            Err(e) => recvmsg_ends(e as int, f, m),
            Ok(v) => if !msg_listed(m, a[1] as int) {
                recvmsg_ends(-EINVAL, f, m)
            } else if capacity(v) == 0 {
                recvmsg_ends(0, f, m)
            } else {
                recvmsg_into(f, m, n, v, a[1] as int, a[2] as i32)
            },
        },
    }
}

/// How many bytes the buffers hold together.
fn total_capacity(v: &Vec<(i64, i64)>) -> (r: u64)
    requires
        v@.len() <= 0x2000_0000,
        forall|i: int|
            0 <= i < v@.len() ==> 0 <= (#[trigger] v@[i]).0 <= u32::MAX && 0 <= v@[i].1 <= u32::MAX,
    ensures
        r == capacity(v@),
        r <= i64::MAX,
{
    let n: usize = v.len();
    let mut total: u64 = 0;
    let mut i: usize = 0;
    assert(v@.skip(0) =~= v@);
    while i < n
        invariant
            i <= n,
            n == v@.len(),
            n <= 0x2000_0000,
            total <= i * 0xffff_ffff,
            total + capacity(v@.skip(i as int)) == capacity(v@),
            forall|j: int|
                0 <= j < v@.len() ==> 0 <= (#[trigger] v@[j]).0 <= u32::MAX && 0 <= v@[j].1
                    <= u32::MAX,
        decreases n - i,
    {
        assert(v@.skip(i as int)[0] == v@[i as int]);
        assert(v@.skip(i as int).drop_first() =~= v@.skip(i + 1));
        total = total + v[i].1 as u64;
        i = i + 1;
    }
    assert(v@.skip(n as int) =~= Seq::empty());
    total
}

/// Take up to `len` bytes that were looked at before; where `keep`, they stay.
fn take_peeked(fds: &mut FdTable, n: u64, len: u64, keep: bool) -> (r: Vec<u8>)
    requires
        old(fds)@.wf(),
        old(fds)@.sockets.contains_key(n),
    ensures
        r@ == front(old(fds)@.sockets[n].peek_buf, len as int),
        final(fds)@ == (if keep {
            old(fds)@
        } else {
            old(fds)@.with_socket(
                n,
                SocketModel {
                    peek_buf: old(fds)@.sockets[n].peek_buf.skip(r@.len() as int),
                    ..old(fds)@.sockets[n]
                },
            )
        }),
        final(fds)@.wf(),
{
    if keep {
        let q: &VecDeque<u8> = &fds.socket(n).peek_buf;
        return copy_front(q, len);
    }
    let mut s: SocketInner = fds.take_socket(n);
    let data: Vec<u8> = copy_front(&s.peek_buf, len);
    drop_front(&mut s.peek_buf, data.len());
    fds.put_socket(n, s);
    data
}

fn copy_front(q: &VecDeque<u8>, len: u64) -> (r: Vec<u8>)
    ensures
        r@ == front(q@, len as int),
{
    let have: usize = q.len();
    let n: usize = if len < have as u64 {
        len as usize
    } else {
        have
    };
    let mut out: Vec<u8> = Vec::new();
    let mut i: usize = 0;
    assert(out@ =~= q@.take(0));
    while i < n
        invariant
            i <= n,
            n <= q@.len(),
            out@ == q@.take(i as int),
        decreases n - i,
    {
        out.push(q[i]);
        i = i + 1;
        assert(out@ =~= q@.take(i as int));
    }
    assert(out@ =~= front(q@, len as int));
    out
}

fn drop_front(q: &mut VecDeque<u8>, n: usize)
    requires
        n <= old(q)@.len(),
    ensures
        final(q)@ == old(q)@.skip(n as int),
{
    let mut i: usize = 0;
    assert(q@ =~= old(q)@.skip(0));
    while i < n
        invariant
            i <= n,
            n <= old(q)@.len(),
            q@ == old(q)@.skip(i as int),
        decreases n - i,
    {
        let _ = q.pop_front();
        i = i + 1;
        assert(q@ =~= old(q)@.skip(i as int));
    }
}

fn recvmsg_on(
    fds: &mut FdTable,
    mem: &mut [u8],
    n: u64,
    spans: Vec<(i64, i64)>,
    cap: u64,
    ptr: i64,
    flags: i32,
) -> (r: RecvMsgStep)
    requires
        old(fds)@.wf(),
        old(fds)@.sockets.contains_key(n),
        cap == capacity(spans@),
        cap <= i64::MAX,
        in_bounds(old(mem)@.len(), ptr as int, 32),
        old(mem)@.len() <= GUEST_LIMIT,
        guest_buffers(spans@),
    ensures
        r@ == recvmsg_into(old(fds)@, old(mem)@, n, spans@, ptr as int, flags).step,
        final(fds)@ == recvmsg_into(old(fds)@, old(mem)@, n, spans@, ptr as int, flags).fds,
        final(mem)@ == recvmsg_into(old(fds)@, old(mem)@, n, spans@, ptr as int, flags).mem,
        r@ matches RecvMsgModel::Recv { spans: v, .. } ==> guest_buffers(v),
        final(mem)@.len() == old(mem)@.len(),
        final(fds)@.wf(),
{
    let peek: bool = flags & MSG_PEEK != 0;
    let dontwait: bool = flags & MSG_DONTWAIT != 0;
    let s: &SocketInner = fds.socket(n);
    if s.peek_buf.len() > 0 {
        let data: Vec<u8> = take_peeked(fds, n, cap, peek);
        copy_bytes_to_spans(mem, &spans, &data);
        write_back_msghdr(mem, ptr, 0);
        return RecvMsgStep::Done(data.len() as i64);
    }
    if s.shut_rd {
        return RecvMsgStep::Done(0);
    }
    if !s.stream {
        return RecvMsgStep::Done(-ENOTCONN);
    }
    let restore: Option<bool> = lend_connection(fds, n, dontwait);
    RecvMsgStep::Recv { socket: n, len: cap, spans, restore }
}

/// `recvmsg(fd, msghdr, flags)`.
pub fn recvmsg(fds: &mut FdTable, mem: &mut [u8], a: [i64; 6]) -> (r: RecvMsgStep)
    requires
        old(fds)@.wf(),
        old(mem)@.len() <= GUEST_LIMIT,
    ensures
        r@ == recvmsg_after(old(fds)@, old(mem)@, a).step,
        final(fds)@ == recvmsg_after(old(fds)@, old(mem)@, a).fds,
        final(mem)@ == recvmsg_after(old(fds)@, old(mem)@, a).mem,
        r@ matches RecvMsgModel::Recv { spans, .. } ==> guest_buffers(spans),
        final(mem)@.len() == old(mem)@.len(),
        final(fds)@.wf(),
{
    let n: u64 = match find_socket(fds, a[0]) {
        Some(n) => n,
        None => {
            return RecvMsgStep::Done(-EBADF);
        },
    };
    let h: MsgHeader = match read_msghdr(mem, a[1]) {
        Ok(h) => h,
        Err(e) => {
            return RecvMsgStep::Done(e);
        },
    };
    if !h.listed {
        return RecvMsgStep::Done(-EINVAL);
    }
    let cap: u64 = total_capacity(&h.buffers);
    if cap == 0 {
        return RecvMsgStep::Done(0);
    }
    recvmsg_on(fds, mem, n, h.buffers, cap, a[1], a[2] as i32)
}

/// The table after received bytes were put with those that were looked at.
pub open spec fn peeked(f: FdModel, fd: int, data: Seq<u8>) -> FdModel {
    match sock(f, fd) {
        Some(n) => f.with_socket(
            n,
            SocketModel { peek_buf: f.sockets[n].peek_buf + data, ..f.sockets[n] },
        ),
        None => f,
    }
}

fn keep_peeked(fds: &mut FdTable, fd: i64, data: &Vec<u8>)
    requires
        old(fds)@.wf(),
    ensures
        final(fds)@ == peeked(old(fds)@, fd as int, data@),
        final(fds)@.wf(),
{
    match find_socket(fds, fd) {
        Some(n) => {
            let mut s: SocketInner = fds.take_socket(n);
            let ghost before = s@;
            let len: usize = data.len();
            let mut i: usize = 0;
            assert(s.peek_buf@ =~= before.peek_buf + data@.take(0));
            while i < len
                invariant
                    i <= len,
                    len == data@.len(),
                    s.peek_buf@ == before.peek_buf + data@.take(i as int),
                    s@ == (SocketModel { peek_buf: s.peek_buf@, ..before }),
                decreases len - i,
            {
                s.peek_buf.push_back(data[i]);
                i = i + 1;
                assert(s.peek_buf@ =~= before.peek_buf + data@.take(i as int));
            }
            assert(data@.take(len as int) =~= data@);
            fds.put_socket(n, s);
        },
        None => {},
    }
}

/// What the end of `recvmsg` does with the bytes that came, if any did.
pub open spec fn recvmsg_done_after(
    f: FdModel,
    m: Seq<u8>,
    a: [i64; 6],
    spans: Seq<(i64, i64)>,
    restore: Option<bool>,
    data: Option<Seq<u8>>,
) -> After {
    let back = returned(f, a[0] as int, restore);
    match data {
        None => After { ret: -EIO, fds: back, mem: m },
        Some(d) => After {
            ret: d.len() as int,
            fds: if (a[2] as i32) & MSG_PEEK != 0 {
                peeked(back, a[0] as int, d)
            } else {
                back
            },
            mem: control_cleared(scattered(m, spans, d), a[1] as int),
        },
    }
}

/// Finish a `recvmsg` with the bytes received, or with `None` where the host failed.
/// Bytes that were only looked at stay to be received.
pub fn recvmsg_done(
    fds: &mut FdTable,
    mem: &mut [u8],
    a: [i64; 6],
    spans: Vec<(i64, i64)>,
    restore: Option<bool>,
    data: Option<Vec<u8>>,
) -> (r: i64)
    requires
        old(fds)@.wf(),
        a[1] <= i64::MAX - 20,
        data matches Some(d) ==> d@.len() <= i64::MAX,
        guest_buffers(spans@),
    ensures
        final(fds)@.wf(),
        final(mem)@.len() == old(mem)@.len(),
        (After { ret: r as int, fds: final(fds)@, mem: final(mem)@ }) == recvmsg_done_after(
            old(fds)@,
            old(mem)@,
            a,
            spans@,
            restore,
            bytes_view(data),
        ),
{
    return_connection(fds, a[0], restore);
    let d: Vec<u8> = match data {
        None => {
            return -EIO;
        },
        Some(d) => d,
    };
    if (a[2] as i32) & MSG_PEEK != 0 {
        keep_peeked(fds, a[0], &d);
    }
    copy_bytes_to_spans(mem, &spans, &d);
    write_back_msghdr(mem, a[1], 0);
    d.len() as i64
}

/// Looking at a message does not take it: the bytes that a look put aside are what
/// the next receive into the same buffers gives, and until then they stay.
pub proof fn peeked_bytes_are_received(
    f: FdModel,
    m: Seq<u8>,
    n: u64,
    v: Seq<(i64, i64)>,
    ptr: int,
    flags: i32,
    data: Seq<u8>,
)
    requires
        f.sockets.contains_key(n),
        f.sockets[n].peek_buf == data,
        0 < data.len() <= capacity(v),
    ensures
        ({
            let r = recvmsg_into(f, m, n, v, ptr, flags);
            &&& r.step == RecvMsgModel::Done(data.len() as int)
            &&& r.mem == control_cleared(scattered(m, v, data), ptr)
            &&& flags & MSG_PEEK != 0 ==> r.fds == f
            &&& flags & MSG_PEEK == 0 ==> r.fds.sockets[n].peek_buf == Seq::<u8>::empty()
        }),
{
    assert(front(data, capacity(v)) =~= data);
    assert(data.skip(data.len() as int) =~= Seq::<u8>::empty());
}

/// Bytes that were looked at, and so put aside, are what the next `recvfrom` gives, as
/// many as its buffer holds; what does not fit stays for the one after, and the
/// connection is not touched.
pub proof fn looked_at_bytes_come_first(
    f: FdModel,
    n: u64,
    data: Seq<u8>,
    m: Seq<u8>,
    a: [i64; 6],
)
    requires
        sock(f, a[0] as int) == Some(n),
        f.sockets.contains_key(n),
        f.sockets[n].peek_buf == data,
        !f.sockets[n].shut_rd,
        data.len() > 0,
        0 < a[2],
        in_bounds(m.len(), a[1] as int, a[2] as int),
    ensures
        ({
            let s = f.sockets[n];
            let given = front(data, a[2] as int);
            let r = receive(f, m, n, a);
            &&& r.step == RecvStep::Done(given.len() as i64)
            &&& r.mem == delivered(f, m, a, s.family_unix, given)
            &&& a[4] == 0 && a[5] == 0 ==> window(r.mem, a[1] as int, given.len() as int) == given
            &&& r.fds == f.with_socket(
                n,
                SocketModel { peek_buf: data.skip(given.len() as int), ..s },
            )
        }),
{
    splice_reads_back(m, a[1] as int, front(data, a[2] as int));
}

/// A call that does not wait leaves the non-blocking flag, and the connection, as
/// they were before it.
pub proof fn dontwait_lasts_for_the_call(f: FdModel, fd: int, n: u64, dontwait: bool)
    requires
        sock(f, fd) == Some(n),
        f.sockets.contains_key(n),
        f.sockets[n].stream,
    ensures
        ({
            let s = f.sockets[n];
            returned(f.with_socket(n, lent(s, dontwait)), fd, restore_flag(s, dontwait)) == f
        }),
{
    let s = f.sockets[n];
    let g = f.with_socket(n, lent(s, dontwait));
    assert(sock(g, fd) == Some(n));
    let h = returned(g, fd, restore_flag(s, dontwait));
    assert(h.sockets[n] == s);
    assert(h.sockets =~= f.sockets);
    assert(h =~= f);
}

/// A connection that was handed to the host for a send or a receive is there again
/// afterwards.
pub proof fn connection_comes_back(f: FdModel, fd: int, n: u64)
    requires
        sock(f, fd) == Some(n),
        f.sockets.contains_key(n),
        connected(f.sockets[n], f.sockets[n].family_unix),
    ensures
        ({
            let s = f.sockets[n];
            let unix = s.family_unix;
            connection_back(f.with_socket(n, with_connection(s, unix, false)), fd, unix) == f
        }),
{
    let s = f.sockets[n];
    let unix = s.family_unix;
    let g = f.with_socket(n, with_connection(s, unix, false));
    assert(sock(g, fd) == Some(n));
    let h = connection_back(g, fd, unix);
    assert(h.sockets[n] == s);
    assert(h.sockets =~= f.sockets);
    assert(h =~= f);
}

/// Whether the buffers lie inside a memory of `size` bytes, none of them at address zero,
/// and do not overlap.
pub open spec fn separate(size: nat, v: Seq<(i64, i64)>) -> bool {
    &&& forall|i: int|
        0 <= i < v.len() ==> 0 < (#[trigger] v[i]).0 && 0 <= v[i].1 && in_bounds(
            size,
            v[i].0 as int,
            v[i].1 as int,
        )
    &&& forall|i: int, j: int|
        0 <= i < j < v.len() ==> (#[trigger] v[i]).0 + v[i].1 <= (#[trigger] v[j]).0 || v[j].0
            + v[j].1 <= v[i].0
}

/// The bytes in the buffers, the first buffer first.
spec fn contents(m: Seq<u8>, v: Seq<(i64, i64)>) -> Seq<u8>
    decreases v.len(),
{
    if v.len() == 0 {
        Seq::empty()
    } else {
        window(m, v[0].0 as int, v[0].1 as int) + contents(m, v.drop_first())
    }
}

proof fn contents_end_with_the_last(m: Seq<u8>, v: Seq<(i64, i64)>)
    requires
        v.len() > 0,
    ensures
        contents(m, v) == contents(m, v.drop_last()) + window(
            m,
            v.last().0 as int,
            v.last().1 as int,
        ),
    decreases v.len(),
{
    let rest = v.drop_first();
    let w = window(m, v[0].0 as int, v[0].1 as int);
    if v.len() == 1 {
        assert(v.drop_last() =~= Seq::<(i64, i64)>::empty());
        assert(rest =~= Seq::<(i64, i64)>::empty());
        assert(contents(m, rest) =~= Seq::<u8>::empty());
        assert(contents(m, v.drop_last()) =~= Seq::<u8>::empty());
        assert(contents(m, v) =~= contents(m, v.drop_last()) + w);
    } else {
        contents_end_with_the_last(m, rest);
        assert(rest.drop_last() =~= v.drop_last().drop_first());
        assert(v.drop_last()[0] == v[0]);
        assert(rest.last() == v.last());
        let last = window(m, v.last().0 as int, v.last().1 as int);
        assert(w + (contents(m, rest.drop_last()) + last) =~= (w + contents(m, rest.drop_last()))
            + last);
    }
}

proof fn gathered_is_contents(m: Seq<u8>, v: Seq<(i64, i64)>)
    requires
        separate(m.len(), v),
    ensures
        gathered(m, v) == Some(contents(m, v)),
    decreases v.len(),
{
    if v.len() > 0 {
        let q = v.drop_last();
        assert(separate(m.len(), q)) by {
            assert forall|i: int| 0 <= i < q.len() implies 0 < (#[trigger] q[i]).0 && 0 <= q[i].1
                && in_bounds(m.len(), q[i].0 as int, q[i].1 as int) by {
                assert(q[i] == v[i]);
            }
            assert forall|i: int, j: int| 0 <= i < j < q.len() implies (#[trigger] q[i]).0 + q[i].1
                <= (#[trigger] q[j]).0 || q[j].0 + q[j].1 <= q[i].0 by {
                assert(q[i] == v[i] && q[j] == v[j]);
            }
        }
        gathered_is_contents(m, q);
        contents_end_with_the_last(m, v);
        let last = v[v.len() - 1];
        if last.1 == 0 {
            assert(contents(m, q) + window(m, last.0 as int, 0) =~= contents(m, q));
        }
    }
}

proof fn separate_tail(size: nat, v: Seq<(i64, i64)>)
    requires
        separate(size, v),
        v.len() > 0,
    ensures
        separate(size, v.drop_first()),
        forall|i: int|
            0 <= i < v.drop_first().len() ==> v[0].0 + v[0].1 <= (#[trigger] v.drop_first()[i]).0
                || v.drop_first()[i].0 + v.drop_first()[i].1 <= v[0].0,
{
    let q = v.drop_first();
    assert forall|i: int| 0 <= i < q.len() implies 0 < (#[trigger] q[i]).0 && 0 <= q[i].1
        && in_bounds(size, q[i].0 as int, q[i].1 as int) by {
        assert(q[i] == v[i + 1]);
    }
    assert forall|i: int, j: int| 0 <= i < j < q.len() implies (#[trigger] q[i]).0 + q[i].1 <= (
    #[trigger] q[j]).0 || q[j].0 + q[j].1 <= q[i].0 by {
        assert(q[i] == v[i + 1] && q[j] == v[j + 1]);
    }
    assert forall|i: int| 0 <= i < q.len() implies v[0].0 + v[0].1 <= (#[trigger] q[i]).0
        || q[i].0 + q[i].1 <= v[0].0 by {
        assert(q[i] == v[i + 1]);
    }
}

/// Two memories that agree on the buffers have the same contents there.
proof fn contents_rest_with_the_buffers(m: Seq<u8>, t: Seq<u8>, v: Seq<(i64, i64)>)
    requires
        separate(m.len(), v),
        t.len() == m.len(),
        forall|i: int, x: int|
            0 <= i < v.len() && (#[trigger] v[i]).0 <= x < v[i].0 + v[i].1 ==> (#[trigger] t[x])
                == m[x],
    ensures
        contents(t, v) == contents(m, v),
    decreases v.len(),
{
    if v.len() > 0 {
        separate_tail(m.len(), v);
        let q = v.drop_first();
        assert forall|i: int, x: int|
            0 <= i < q.len() && (#[trigger] q[i]).0 <= x < q[i].0 + q[i].1 implies (
        #[trigger] t[x]) == m[x] by {
            assert(q[i] == v[i + 1]);
        }
        contents_rest_with_the_buffers(m, t, q);
        let (base, len) = v[0];
        assert(window(t, base as int, len as int) =~= window(m, base as int, len as int));
    }
}

/// Spreading bytes over buffers leaves the rest of the memory as it was.
proof fn scattered_keeps_the_rest(m: Seq<u8>, v: Seq<(i64, i64)>, data: Seq<u8>)
    requires
        separate(m.len(), v),
    ensures
        scattered(m, v, data).len() == m.len(),
        forall|x: int|
            0 <= x < m.len() && (forall|i: int|
                0 <= i < v.len() ==> !((#[trigger] v[i]).0 <= x < v[i].0 + v[i].1)) ==> (
            #[trigger] scattered(m, v, data)[x]) == m[x],
    decreases v.len(),
{
    if v.len() > 0 {
        let (base, len) = v[0];
        let part = front(data, len as int);
        let m1 = if part.len() == 0 {
            m
        } else {
            written(m, base as int, part)
        };
        let q = v.drop_first();
        separate_tail(m.len(), v);
        scattered_keeps_the_rest(m1, q, data.skip(part.len() as int));
        let t = scattered(m, v, data);
        assert forall|x: int|
            0 <= x < m.len() && (forall|i: int|
                0 <= i < v.len() ==> !((#[trigger] v[i]).0 <= x < v[i].0 + v[i].1)) implies (
        #[trigger] t[x]) == m[x] by {
            assert(!(v[0].0 <= x < v[0].0 + v[0].1));
            assert(m1[x] == m[x]);
            assert forall|i: int| 0 <= i < q.len() implies !((#[trigger] q[i]).0 <= x < q[i].0
                + q[i].1) by {
                assert(q[i] == v[i + 1]);
            }
        }
    }
}

proof fn separate_buffers_have_room(size: nat, v: Seq<(i64, i64)>)
    requires
        separate(size, v),
    ensures
        capacity(v) >= 0,
    decreases v.len(),
{
    if v.len() > 0 {
        separate_tail(size, v);
        separate_buffers_have_room(size, v.drop_first());
        assert(0 <= v[0].1);
    }
}

proof fn contents_after_scattering(m: Seq<u8>, v: Seq<(i64, i64)>, data: Seq<u8>)
    requires
        separate(m.len(), v),
        data.len() <= capacity(v),
    ensures
        contents(m, v).len() == capacity(v),
        contents(scattered(m, v, data), v) == data + contents(m, v).skip(data.len() as int),
    decreases v.len(),
{
    if v.len() == 0 {
        assert(contents(m, v) =~= data + contents(m, v).skip(data.len() as int));
    } else {
        let (base, len) = v[0];
        let part = front(data, len as int);
        let n = part.len() as int;
        let m1 = if part.len() == 0 {
            m
        } else {
            written(m, base as int, part)
        };
        let q = v.drop_first();
        let more = data.skip(n);
        let t = scattered(m, v, data);
        separate_tail(m.len(), v);
        assert(in_bounds(m.len(), base as int, len as int));
        assert(m1.len() == m.len());
        separate_buffers_have_room(m.len(), q);
        contents_after_scattering(m1, q, more);
        assert(contents(m1, q) == contents(m, q)) by {
            assert forall|i: int, x: int|
                0 <= i < q.len() && (#[trigger] q[i]).0 <= x < q[i].0 + q[i].1 implies (
            #[trigger] m1[x]) == m[x] by {
                assert(separate(m.len(), q));
            }
            contents_rest_with_the_buffers(m, m1, q);
        }
        scattered_keeps_the_rest(m1, q, more);
        let w = window(m, base as int, len as int);
        assert(window(t, base as int, len as int) =~= part + w.skip(n)) by {
            assert forall|x: int| base <= x < base + len implies #[trigger] t[x] == m1[x] by {
                assert forall|i: int| 0 <= i < q.len() implies !((#[trigger] q[i]).0 <= x < q[i].0
                    + q[i].1) by {}
            }
        }
        let all = contents(m, v);
        assert(all == w + contents(m, q));
        assert(contents(t, v) == (part + w.skip(n)) + (more + contents(m, q).skip(
            more.len() as int,
        )));
        assert(data =~= part + more);
        if data.len() >= len {
            assert(w.skip(n) =~= Seq::<u8>::empty());
            assert(contents(t, v) =~= data + all.skip(data.len() as int));
        } else {
            assert(more =~= Seq::<u8>::empty());
            assert(contents(t, v) =~= data + all.skip(data.len() as int));
        }
    }
}

/// Spreading bytes over buffers and gathering them again gives the bytes, followed by
/// what the buffers held behind them, if the buffers have room for the bytes, lie inside
/// the memory and do not overlap.
pub proof fn scatter_then_gather(m: Seq<u8>, v: Seq<(i64, i64)>, data: Seq<u8>)
    requires
        separate(m.len(), v),
        data.len() <= capacity(v),
    ensures
        gathered(m, v) matches Some(before) && before.len() == capacity(v) && gathered(
            scattered(m, v, data),
            v,
        ) == Some(data + before.skip(data.len() as int)),
{
    contents_after_scattering(m, v, data);
    scattered_keeps_the_rest(m, v, data);
    gathered_is_contents(m, v);
    gathered_is_contents(scattered(m, v, data), v);
}

/// An option that was set is told as set.
pub proof fn option_is_told_as_set(s: SocketModel, level: i32, name: i32)
    requires
        (level == SOL_SOCKET && (name == SO_REUSEADDR || name == SO_KEEPALIVE)) || (level
            == IPPROTO_TCP && name == TCP_NODELAY),
    ensures
        option_value(option_set(s, level, name), level, name) == 1,
{
}

/// Reading the last error clears it, and reading any other option changes nothing.
pub proof fn last_error_is_told_once(s: SocketModel, level: i32, name: i32)
    ensures
        option_value(option_read(s, SOL_SOCKET, SO_ERROR), SOL_SOCKET, SO_ERROR) == 0,
        !(level == SOL_SOCKET && name == SO_ERROR) ==> option_read(s, level, name) == s,
{
}

/// After a shutdown nothing more is sent, or received, in the direction that was shut,
/// and a direction that was not shut goes on as before.
pub proof fn shut_directions_stay_shut(
    f: FdModel,
    a: [i64; 6],
    n: u64,
    b: Seq<u8>,
    m: Seq<u8>,
    recv: [i64; 6],
)
    requires
        sock(f, a[0] as int) == Some(n),
        f.sockets.contains_key(n),
    ensures
        ({
            let g = shutdown_after(f, a).1;
            let how = a[1] as i32;
            &&& how == SHUT_WR || how == SHUT_RDWR ==> send_from(g, n, b) == (
                SendModel::Done(-EPIPE),
                g,
            )
            &&& how == SHUT_RD || how == SHUT_RDWR ==> receive(g, m, n, recv) == recv_ends(0, g, m)
            &&& how == SHUT_RD ==> send_from(g, n, b).0 == send_from(f, n, b).0
            &&& how == SHUT_WR ==> receive(g, m, n, recv).step == receive(f, m, n, recv).step
        }),
{
}

/// An IPv4 address that was written is read back.
pub proof fn v4_address_reads_back(m: Seq<u8>, ptr: int, port: u16, addr: Seq<u8>)
    requires
        ptr > 0,
        in_bounds(m.len(), ptr, 16),
        addr.len() == 4,
    ensures
        sockaddr_at(splice(m, ptr, v4_image(port, addr)), ptr, 16) == Ok::<AddrModel, i64>(
            AddrModel::V4 { port, addr },
        ),
{
    let t = splice(m, ptr, v4_image(port, addr));
    crate::bytes::pow256_values();
    le_round_trip(2, 2);
    assert(window(t, ptr, 2) =~= le(2, 2));
    assert(window(t, ptr + 4, 4) =~= addr);
}

/// The path of a Unix socket that was written is read back, if it fits with a zero byte
/// after it.
pub proof fn unix_address_reads_back(m: Seq<u8>, ptr: int, path: Seq<u8>)
    requires
        ptr > 0,
        in_bounds(m.len(), ptr, 110),
        0 < path.len() < 108,
        forall|i: int| 0 <= i < path.len() ==> #[trigger] path[i] != 0,
        vstd::utf8::valid_utf8(path),
    ensures
        sockaddr_at(splice(m, ptr, unix_image(Some(path))), ptr, 110) == Ok::<AddrModel, i64>(
            AddrModel::Unix { path },
        ),
{
    let t = splice(m, ptr, unix_image(Some(path)));
    crate::bytes::pow256_values();
    le_round_trip(1, 2);
    assert(window(t, ptr, 2) =~= le(1, 2));
    let w = window(t, ptr + 2, 108);
    assert(w =~= resized(path, 108));
    assert(t[ptr + 2] == path[0]);
    until_zero_is(path, w);
}

proof fn until_zero_is(path: Seq<u8>, w: Seq<u8>)
    requires
        path.len() < w.len(),
        forall|i: int| 0 <= i < path.len() ==> #[trigger] path[i] != 0 && path[i] == w[i],
        w[path.len() as int] == 0,
    ensures
        until_zero(w) == path,
    decreases path.len(),
{
    if path.len() > 0 {
        assert(path[0] != 0 && path[0] == w[0]);
        let p = path.drop_first();
        let v = w.drop_first();
        assert forall|i: int| 0 <= i < p.len() implies #[trigger] p[i] != 0 && p[i] == v[i] by {
            assert(path[i + 1] != 0 && path[i + 1] == w[i + 1]);
        }
        until_zero_is(p, v);
        assert(seq![w[0]] + p =~= path);
    } else {
        assert(path =~= Seq::empty());
    }
}

} // verus!
