//! Datagram sockets, and a guest at its start.

use vstd::prelude::*;
use crate::fd::AddrModel;
use crate::fd::Resource;
use crate::kernel::no_descriptors;
use crate::kernel::standard_descriptors;
use crate::sys::process::fresh_process;
use crate::sys::udp::bind_plan;
use crate::sys::udp::bound_after;
use crate::sys::udp::dequeued;
use crate::sys::udp::enqueued;
use crate::sys::udp::fresh_udp;
use crate::sys::udp::DatagramModel;
use crate::sys::udp::Family;
use crate::sys::udp::UdpFailure;
use crate::sys::udp::UdpModel;

verus! {

/// Whether the two sockets differ in their queues at most.
pub open spec fn queue_alone(s: UdpModel, t: UdpModel) -> bool {
    &&& t.socket == s.socket && t.bound_addr == s.bound_addr && t.peer_addr == s.peer_addr
    &&& t.family == s.family && t.ipv6_v6only == s.ipv6_v6only && t.so_reuseaddr == s.so_reuseaddr
    &&& t.shutdown_flags == s.shutdown_flags && t.pump_cancel == s.pump_cancel
}

/// A datagram that comes in waits behind those that came before it; of more than 4096,
/// the oldest is lost. Only the first of a queue is news to those who wait.
pub proof fn a_datagram_waits_its_turn(s: UdpModel, d: DatagramModel, i: int)
    requires
        s.recv_queue.len() <= 4096,
        0 <= i < s.recv_queue.len(),
    ensures
        ({
            let (news, t) = enqueued(s, d);
            let full = s.recv_queue.len() == 4096;
            &&& !news
            &&& t.recv_queue.last() == d
            &&& !full ==> t.recv_queue.len() == s.recv_queue.len() + 1 && t.recv_queue[i]
                == s.recv_queue[i]
            &&& full ==> t.recv_queue.len() == 4096 && (i > 0 ==> t.recv_queue[i - 1]
                == s.recv_queue[i])
            &&& queue_alone(s, t)
        }),
{
}

/// The datagram that has waited longest is taken, and every other moves up. An empty
/// queue gives none; what comes into it is news, and is what is taken next.
pub proof fn the_oldest_datagram_is_taken(s: UdpModel, d: DatagramModel, i: int)
    ensures
        ({
            let (r, t) = dequeued(s);
            let n = s.recv_queue.len();
            &&& n == 0 ==> r is None && t == s
            &&& n > 0 ==> r == Some(s.recv_queue[0]) && t.recv_queue.len() == n - 1 && (0 < i < n
                ==> t.recv_queue[i - 1] == s.recv_queue[i]) && queue_alone(s, t)
            &&& n == 0 ==> enqueued(s, d).0 && dequeued(enqueued(s, d).1).0 == Some(d) && dequeued(
                enqueued(s, d).1,
            ).1.recv_queue.len() == 0
        }),
{
}

/// A socket that is there is not made again. Another is made of its family, at the
/// address asked for, sharing the address where that was allowed, and, of the longer
/// family alone, with its choice between both families and one.
pub proof fn a_datagram_socket_is_made_once(s: UdpModel, at: AddrModel)
    ensures
        s.socket ==> bind_plan(s, at) is None,
        !s.socket ==> (bind_plan(s, at) matches Some(p) && p.0 == s.family && p.1 == s.so_reuseaddr
            && p.3 == at && (s.family == Family::V4 ==> p.2 is None) && (s.family == Family::V6
            ==> p.2 == Some(s.ipv6_v6only))),
{
}

/// A socket that was made is there, at its address, and is not made again; one that could
/// not be made leaves everything as it was, and says why.
pub proof fn a_datagram_socket_is_bound(s: UdpModel, at: AddrModel, e: UdpFailure)
    ensures
        ({
            let (r, t) = bound_after(s, Ok(at));
            &&& r == Ok::<AddrModel, i64>(at)
            &&& t.socket && t.bound_addr == Some(at)
            &&& t.recv_queue == s.recv_queue && t.peer_addr == s.peer_addr && t.family == s.family
            &&& bind_plan(t, at) is None
        }),
        ({
            let (r, t) = bound_after(s, Err(e));
            &&& t == s
            &&& r matches Err(n) && n == -(match e {
                UdpFailure::AddrInUse => 98int,
                UdpFailure::AddrNotAvailable => 99,
                UdpFailure::Other => 5,
            })
        }),
{
}

/// A new socket is neither made nor bound, and nothing waits in it.
pub proof fn a_new_datagram_socket_is_empty(family: Family, only: bool, reuse: bool)
    ensures
        ({
            let s = fresh_udp(family, only, reuse);
            &&& !s.socket && s.bound_addr is None && s.peer_addr is None
            &&& s.recv_queue.len() == 0
            &&& s.family == family && s.ipv6_v6only == only && s.so_reuseaddr == reuse
            &&& !s.pump_cancel
        }),
{
}

/// A guest starts with its standard streams under 0, 1 and 2, each a pipe of its own that
/// is open and empty, and with nothing else open; one without streams has nothing open.
pub proof fn a_guest_starts_with_its_streams(fd: int)
    ensures
        ({
            let f = standard_descriptors();
            let (a, b, c) = (f.at(0), f.at(1), f.at(2));
            &&& a matches Some(Resource::Stdin(x)) && b matches Some(Resource::Stdout(y)) && c matches Some(
                Resource::Stderr(z),
            ) && x != y && y != z && x != z && f.pipes[x].buf.len() == 0 && !f.pipes[x].closed
                && f.pipes[y].buf.len() == 0 && !f.pipes[y].closed && f.pipes[z].buf.len() == 0
                && !f.pipes[z].closed
            &&& !(0 <= fd <= 2) ==> f.at(fd) is None
        }),
        no_descriptors().at(fd) is None,
{
}

/// A process starts with no children and no signals, and its first child is number 2.
pub proof fn a_process_starts_alone()
    ensures
        fresh_process().exit_code is None,
        fresh_process().children.len() == 0,
        fresh_process().signals_pending.len() == 0,
        fresh_process().next_pid == 2,
{
}

} // verus!
