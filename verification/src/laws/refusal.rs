//! What calls on sockets, paths and descriptors are refused for.

use vstd::prelude::*;
use crate::fd::AddrModel;
use crate::fd::FdModel;
use crate::fd::Resource;
use crate::mem::in_bounds;
use crate::mem::text_at;
use crate::sys::file::fcntl_after;
use crate::sys::fs::chmod_request;
use crate::sys::fs::fchmod_request;
use crate::sys::fs::ftruncate_request;
use crate::sys::fs::link_request;
use crate::sys::fs::mkdir_request;
use crate::sys::fs::newfstatat_step;
use crate::sys::fs::open_request;
use crate::sys::fs::rename_request;
use crate::sys::fs::symlink_request;
use crate::sys::fs::truncate_request;
use crate::sys::fs::unlink_request;
use crate::sys::fs::utimensat_request;
use crate::sys::fs::StatModel;
use crate::sys::socket::accept_after;
use crate::sys::socket::bind_after;
use crate::sys::socket::connect_step;
use crate::sys::socket::getpeername_after;
use crate::sys::socket::getsockname_after;
use crate::sys::socket::getsockopt_after;
use crate::sys::socket::listen_after;
use crate::sys::socket::recvfrom_after;
use crate::sys::socket::sendto_after;
use crate::sys::socket::setsockopt_after;
use crate::sys::socket::shutdown_after;
use crate::sys::socket::sockaddr_at;
use crate::sys::socket::socketpair_kind;
use crate::sys::socket::AcceptModel;
use crate::sys::socket::ConnectModel;
use crate::sys::socket::RecvStep;
use crate::sys::socket::SendModel;
use crate::sys::socket::ShutdownStep;
use crate::vfs::Vfs;

verus! {

/// Only a socket can be asked to do what sockets do: a descriptor that names something
/// else, or nothing, is refused with -9, and nothing changes.
pub proof fn only_sockets_are_heard(f: FdModel, m: Seq<u8>, a: [i64; 6])
    requires
        !(f.at(a[0] as int) matches Some(Resource::Socket(_))),
    ensures
        sendto_after(f, m, a) == (SendModel::Done(-9), f),
        recvfrom_after(f, m, a).step == RecvStep::Done((-9) as i64),
        recvfrom_after(f, m, a).fds == f,
        recvfrom_after(f, m, a).mem == m,
        a[1] >= 0 ==> listen_after(f, a) == (-9int, f),
        0 <= a[1] <= 2 ==> shutdown_after(f, a) == (ShutdownStep::Done((-9) as i64), f),
        a[3] == 0 ==> setsockopt_after(f, m, a) == (-9int, f),
        a[3] != 0 ==> getsockopt_after(f, m, a).ret == -9 && getsockopt_after(f, m, a).fds == f
            && getsockopt_after(f, m, a).mem == m,
        a[1] != 0 ==> getsockname_after(f, m, a) == (-9int, m) && getpeername_after(f, m, a) == (
            -9int,
            m,
        ),
        a[1] == 0 && a[2] == 0 ==> accept_after(f, m, a) == (AcceptModel::Done(-9), f),
        sockaddr_at(m, a[1] as int, a[2] as int) matches Ok(AddrModel::V4 { .. }) ==> connect_step(
            f,
            m,
            a,
        ) == ConnectModel::Done(-9) && bind_after(f, m, a) == (Ok::<int, Seq<u8>>(-9), f),
{
}

/// What a socket refuses: to connect a second time (-106), to connect or bind to the path
/// of another family (-95), to connect to the longer addresses (-97), to listen where it
/// is not bound (-89) or with a negative queue (-22), to tell the peer that it does not
/// have (-107), to be shut down in a way that is none (-22), and to receive without room
/// (-22) or outside of the memory (-14). Nothing changes then.
pub proof fn a_socket_refuses(f: FdModel, m: Seq<u8>, a: [i64; 6], n: u64)
    requires
        f.at(a[0] as int) == Some(Resource::Socket(n)),
    ensures
        ({
            let s = f.sockets[n];
            let addr = sockaddr_at(m, a[1] as int, a[2] as int);
            let r = recvfrom_after(f, m, a);
            &&& addr matches Ok(AddrModel::V4 { .. }) ==> (s.stream ==> connect_step(f, m, a)
                == ConnectModel::Done(-106))
            &&& addr matches Ok(AddrModel::V6 { .. }) ==> connect_step(f, m, a)
                == ConnectModel::Done(-97)
            &&& addr matches Ok(AddrModel::Unix { .. }) ==> (s.family_unix && s.stream_unix
                ==> connect_step(f, m, a) == ConnectModel::Done(-106))
            &&& addr matches Ok(AddrModel::Unix { .. }) ==> (!s.family_unix ==> connect_step(f, m, a)
                == ConnectModel::Done(-95) && bind_after(f, m, a) == (Ok::<int, Seq<u8>>(-95), f))
            &&& addr matches Err(e) ==> connect_step(f, m, a) == ConnectModel::Done(e as int)
                && bind_after(f, m, a) == (Ok::<int, Seq<u8>>(e as int), f)
            &&& a[1] < 0 ==> listen_after(f, a) == (-22int, f)
            &&& a[1] >= 0 && s.bound is None ==> listen_after(f, a) == (-89int, f)
            &&& a[1] == 0 ==> getsockname_after(f, m, a) == (-14int, m) && getpeername_after(f, m, a)
                == (-14int, m)
            &&& a[1] != 0 && in_bounds(m.len(), a[1] as int, 110) && a[2] == 0 && !s.family_unix
                && s.peer_addr is None ==> getpeername_after(f, m, a) == (-107int, m)
            &&& a[1] != 0 && in_bounds(m.len(), a[1] as int, 110) && a[2] == 0 && s.family_unix
                && s.peer_path is None ==> getpeername_after(f, m, a) == (-107int, m)
            &&& i32::MIN <= a[1] <= i32::MAX && !(0 <= a[1] <= 2) ==> shutdown_after(f, a) == (
                ShutdownStep::Done((-22) as i64),
                f,
            )
            &&& a[2] == 0 ==> r.step == RecvStep::Done((-22) as i64) && r.fds == f && r.mem == m
            &&& a[2] != 0 && !in_bounds(m.len(), a[1] as int, a[2] as int) ==> r.step
                == RecvStep::Done((-14) as i64) && r.fds == f && r.mem == m
            &&& !in_bounds(m.len(), a[1] as int, a[2] as int) ==> sendto_after(f, m, a) == (
                SendModel::Done(-14),
                f,
            )
            &&& a[3] == 0 ==> getsockopt_after(f, m, a).ret == -14 && getsockopt_after(f, m, a).fds == f
        }),
{
}

/// Pairs are made of the family 1 alone (-97), of the kinds 1 and 2 (-93), and where they
/// can be told (-14).
pub proof fn a_pair_is_refused(m: Seq<u8>, a: [i64; 6])
    requires
        i32::MIN <= a[0] <= i32::MAX,
    ensures
        ({
            let r = socketpair_kind(m, a);
            let kind = (a[1] as i32) & 0xf;
            &&& a[0] != 1 ==> (r matches Err(e) && e == -97)
            &&& a[0] == 1 && kind != 1 && kind != 2 ==> (r matches Err(e) && e == -93)
            &&& a[0] == 1 && (kind == 1 || kind == 2) && (a[3] == 0 || !in_bounds(
                m.len(),
                a[3] as int,
                8,
            )) ==> (r matches Err(e) && e == -14)
            &&& a[0] == 1 && (kind == 1 || kind == 2) && a[3] != 0 && in_bounds(
                m.len(),
                a[3] as int,
                8,
            ) ==> r is Ok
        }),
{
}

/// A path that is no text in the memory, of fewer than 4096 bytes up to its zero, is
/// refused with -14 wherever one is asked for, and an empty one with -2 wherever it must
/// name something.
pub proof fn a_path_must_be_readable(
    f: FdModel,
    vfs: Vfs,
    m: Seq<u8>,
    a: [i64; 6],
    dirfd: i64,
    ptr: i64,
    mode: i64,
)
    ensures
        text_at(m, ptr as int, 4096) is None ==> {
            &&& mkdir_request(f, vfs, m, dirfd, ptr, mode) matches Err(e) && e == -14
            &&& chmod_request(f, vfs, m, dirfd, ptr, mode) matches Err(e) && e == -14
            &&& symlink_request(f, vfs, m, ptr, dirfd, ptr) matches Err(e) && e == -14
            &&& link_request(f, vfs, m, ptr, ptr) matches Err(e) && e == -14
        },
        text_at(m, a[1] as int, 4096) is None ==> {
            &&& open_request(f, vfs, m, a) matches Err(e) && e == -14
            &&& unlink_request(f, vfs, m, a) matches Err(e) && e == -14
            &&& rename_request(f, vfs, m, a) matches Err(e) && e == -14
            &&& utimensat_request(f, vfs, m, a) matches Err(e) && e == -14
            &&& newfstatat_step(f, vfs, m, a) == StatModel::Done(-14)
        },
        text_at(m, a[0] as int, 4096) is None ==> (truncate_request(f, vfs, m, a) matches Err(e) && e
            == -14),
        text_at(m, ptr as int, 4096) == Some(Seq::<u8>::empty()) ==> {
            &&& mkdir_request(f, vfs, m, dirfd, ptr, mode) matches Err(e) && e == -2
            &&& chmod_request(f, vfs, m, dirfd, ptr, mode) matches Err(e) && e == -2
            &&& symlink_request(f, vfs, m, ptr, dirfd, ptr) matches Err(e) && e == -2
            &&& link_request(f, vfs, m, ptr, ptr) matches Err(e) && e == -22
        },
        text_at(m, a[1] as int, 4096) == Some(Seq::<u8>::empty()) ==> {
            &&& unlink_request(f, vfs, m, a) matches Err(e) && e == -2
            &&& utimensat_request(f, vfs, m, a) matches Err(e) && e == -2
        },
{
}

/// Only a file has a length and a mode to set, and a length is not negative.
pub proof fn only_files_have_a_length(f: FdModel, a: [i64; 6])
    requires
        0 <= a[0] <= u32::MAX,
    ensures
        !(f.at(a[0] as int) matches Some(Resource::File(_))) ==> {
            &&& fchmod_request(f, a) matches Err(e) && e == -9
            &&& a[1] >= 0 ==> (ftruncate_request(f, a) matches Err(e) && e == -9)
        },
        a[1] < 0 ==> (ftruncate_request(f, a) matches Err(e) && e == -22),
{
}

/// `fcntl` is refused on a descriptor that names nothing, with a command that is not
/// known, and for a copy from a negative number on; nothing changes then.
pub proof fn a_descriptor_call_is_refused(f: FdModel, m: Seq<u8>, a: [i64; 6])
    requires
        i32::MIN <= a[1] <= i32::MAX,
        i32::MIN <= a[2] <= i32::MAX,
    ensures
        ({
            let r = fcntl_after(f, m, a);
            let known = 0 <= a[1] <= 4 || a[1] == 1030;
            let copies = a[1] == 0 || a[1] == 1030;
            let there = 0 <= a[0] <= u32::MAX;
            &&& !there ==> r.ret == -9 && r.fds == f && r.mem == m
            &&& there && !known ==> r.ret == -22 && r.fds == f && r.mem == m
            &&& there && copies && a[2] < 0 ==> r.ret == -22 && r.fds == f && r.mem == m
            &&& there && copies && a[2] >= 0 && f.at(a[0] as int) is None ==> r.ret == -9 && r.fds
                == f && r.mem == m
            &&& there && (a[1] == 3 || a[1] == 4) && f.at(a[0] as int) is None ==> r.ret == -9
                && r.fds == f && r.mem == m
        }),
{
}

} // verus!
