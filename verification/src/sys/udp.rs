//! Datagram sockets: what is bound, and the datagrams that wait to be received.

use std::collections::VecDeque;
use vstd::prelude::*;
use crate::errno::EADDRINUSE;
use crate::errno::EADDRNOTAVAIL;
use crate::errno::EIO;
use crate::fd::addr_view;
use crate::fd::AddrModel;
use crate::fd::SockAddr;

verus! {

/// How many datagrams wait at most. A further one drops the oldest.
pub const RECV_QUEUE_CAP: usize = 4096;

/// A datagram that has come in, and where from.
#[derive(Debug)]
pub struct Datagram {
    pub bytes: Vec<u8>,
    pub addr: SockAddr,
}

pub struct DatagramModel {
    pub bytes: Seq<u8>,
    pub addr: AddrModel,
}

impl View for Datagram {
    type V = DatagramModel;

    open spec fn view(&self) -> DatagramModel {
        DatagramModel { bytes: self.bytes@, addr: self.addr@ }
    }
}

#[derive(Clone, Copy, PartialEq, Eq, Structural, Debug)]
pub enum Family {
    V4,
    V6,
}

/// The state of a datagram socket. The host keeps the socket itself, and the task that
/// fills the queue.
pub struct UdpSocketState {
    /// Whether the host socket is there.
    pub socket: bool,
    pub recv_queue: VecDeque<Datagram>,
    pub bound_addr: Option<SockAddr>,
    pub peer_addr: Option<SockAddr>,
    pub family: Family,
    pub ipv6_v6only: bool,
    pub so_reuseaddr: bool,
    /// Bit 0: no more is received; bit 1: no more is sent.
    pub shutdown_flags: u8,
    /// Whether the task that fills the queue is to end.
    pub pump_cancel: bool,
}

#[verifier::ext_equal]
pub struct UdpModel {
    pub socket: bool,
    pub recv_queue: Seq<DatagramModel>,
    pub bound_addr: Option<AddrModel>,
    pub peer_addr: Option<AddrModel>,
    pub family: Family,
    pub ipv6_v6only: bool,
    pub so_reuseaddr: bool,
    pub shutdown_flags: u8,
    pub pump_cancel: bool,
}

pub open spec fn queue_view(q: Seq<Datagram>) -> Seq<DatagramModel> {
    q.map_values(|d: Datagram| d@)
}

impl View for UdpSocketState {
    type V = UdpModel;

    open spec fn view(&self) -> UdpModel {
        UdpModel {
            socket: self.socket,
            recv_queue: queue_view(self.recv_queue@),
            bound_addr: addr_view(self.bound_addr),
            peer_addr: addr_view(self.peer_addr),
            family: self.family,
            ipv6_v6only: self.ipv6_v6only,
            so_reuseaddr: self.so_reuseaddr,
            shutdown_flags: self.shutdown_flags,
            pump_cancel: self.pump_cancel,
        }
    }
}

impl UdpModel {
    /// The queue is within its bound.
    pub open spec fn wf(self) -> bool {
        self.recv_queue.len() <= RECV_QUEUE_CAP
    }
}

/// The queue after a datagram came in: it goes last, and where the queue was full the
/// first goes out.
pub open spec fn queued(q: Seq<DatagramModel>, d: DatagramModel) -> Seq<DatagramModel> {
    if q.len() >= RECV_QUEUE_CAP {
        q.drop_first().push(d)
    } else {
        q.push(d)
    }
}

/// How the host is to make the socket.
pub struct UdpPlan {
    pub family: Family,
    pub reuse_address: bool,
    /// Whether to receive IPv6 alone; `None` leaves it.
    pub only_v6: Option<bool>,
    pub addr: SockAddr,
}

/// What is left to do to have a bound socket.
pub enum UdpBind {
    /// The socket is there; ask it for its address, and go on with `still_bound`.
    Bound,
    /// Make the socket; `bound` finishes.
    Open(UdpPlan),
}

/// Why the host could not make the socket.
#[derive(Clone, Copy, PartialEq, Eq, Structural, Debug)]
pub enum UdpFailure {
    AddrInUse,
    AddrNotAvailable,
    Other,
}

/// The error number of a failure.
pub open spec fn udp_errno(e: UdpFailure) -> int {
    match e {
        UdpFailure::AddrInUse => EADDRINUSE as int,
        UdpFailure::AddrNotAvailable => EADDRNOTAVAIL as int,
        UdpFailure::Other => EIO as int,
    }
}

/// A socket that nothing has been done with.
pub open spec fn fresh_udp(family: Family, ipv6_v6only: bool, so_reuseaddr: bool) -> UdpModel {
    UdpModel {
        socket: false,
        recv_queue: Seq::empty(),
        bound_addr: None,
        peer_addr: None,
        family,
        ipv6_v6only,
        so_reuseaddr,
        shutdown_flags: 0,
        pump_cancel: false,
    }
}

/// The datagram that is taken from the queue, if there is one, and the socket then.
pub open spec fn dequeued(s: UdpModel) -> (Option<DatagramModel>, UdpModel) {
    if s.recv_queue.len() > 0 {
        (
            Some(s.recv_queue[0]),
            UdpModel { recv_queue: s.recv_queue.drop_first(), ..s },
        )
    } else {
        (None, s)
    }
}

/// The socket with one more datagram in its queue, and whether the queue was empty.
pub open spec fn enqueued(s: UdpModel, d: DatagramModel) -> (bool, UdpModel) {
    (s.recv_queue.len() == 0, UdpModel { recv_queue: queued(s.recv_queue, d), ..s })
}

/// What is asked of the host to have the socket bound: nothing where it is there, and
/// otherwise the family, whether the address may be in use, whether IPv6 alone is
/// received, and the address.
pub open spec fn bind_plan(s: UdpModel, requested: AddrModel) -> Option<
    (Family, bool, Option<bool>, AddrModel),
> {
    if s.socket {
        None
    } else {
        Some(
            (
                s.family,
                s.so_reuseaddr,
                if s.family == Family::V6 {
                    Some(s.ipv6_v6only)
                } else {
                    None
                },
                requested,
            ),
        )
    }
}

/// What a bind step asks of the host.
pub open spec fn bind_asked(r: UdpBind) -> Option<(Family, bool, Option<bool>, AddrModel)> {
    match r {
        UdpBind::Bound => None,
        UdpBind::Open(p) => Some((p.family, p.reuse_address, p.only_v6, p.addr@)),
    }
}

/// The answer once the host has made the socket or failed to, and the socket then.
pub open spec fn bound_after(s: UdpModel, made: Result<AddrModel, UdpFailure>) -> (
    Result<AddrModel, i64>,
    UdpModel,
) {
    match made {
        Ok(a) => (Ok(a), UdpModel { socket: true, bound_addr: Some(a), ..s }),
        Err(e) => (Err((-udp_errno(e)) as i64), s),
    }
}

/// A result over addresses, taken by their models.
pub open spec fn made_view(r: Result<SockAddr, UdpFailure>) -> Result<AddrModel, UdpFailure> {
    match r {
        Ok(a) => Ok(a@),
        Err(e) => Err(e),
    }
}

impl UdpSocketState {
    /// A socket that nothing has been done with.
    pub fn new(family: Family, ipv6_v6only: bool, so_reuseaddr: bool) -> (r: UdpSocketState)
        ensures
            r@ == fresh_udp(family, ipv6_v6only, so_reuseaddr),
            r@.wf(),
    {
        let r: UdpSocketState = UdpSocketState {
            socket: false,
            recv_queue: VecDeque::new(),
            bound_addr: None,
            peer_addr: None,
            family,
            ipv6_v6only,
            so_reuseaddr,
            shutdown_flags: 0,
            pump_cancel: false,
        };
        assert(queue_view(r.recv_queue@) =~= Seq::empty());
        r
    }

    /// Whether a datagram waits.
    pub fn has_pending(&self) -> (r: bool)
        ensures
            r == (self@.recv_queue.len() > 0),
    {
        self.recv_queue.len() > 0
    }

    /// Take the datagram that has waited longest.
    pub fn try_dequeue(&mut self) -> (r: Option<Datagram>)
        ensures
            (match r {
                Some(d) => Some(d@),
                None => None,
            }, final(self)@) == dequeued(old(self)@),
            old(self)@.wf() ==> final(self)@.wf(),
    {
        let r: Option<Datagram> = self.recv_queue.pop_front();
        proof {
            if r is Some {
                assert(self@.recv_queue =~= old(self)@.recv_queue.drop_first());
            } else {
                assert(self@.recv_queue =~= old(self)@.recv_queue);
            }
        }
        r
    }

    /// Put a datagram into the queue. The answer is whether the queue was empty, and so
    /// whether those who wait are to be woken.
    pub fn enqueue(&mut self, bytes: Vec<u8>, addr: SockAddr) -> (r: bool)
        requires
            old(self)@.wf(),
        ensures
            (r, final(self)@) == enqueued(
                old(self)@,
                DatagramModel { bytes: bytes@, addr: addr@ },
            ),
            final(self)@.wf(),
    {
        let n: usize = self.recv_queue.len();
        if n >= RECV_QUEUE_CAP {
            let _ = self.recv_queue.pop_front();
        }
        let d: Datagram = Datagram { bytes, addr };
        let ghost model = d@;
        self.recv_queue.push_back(d);
        assert(self@.recv_queue =~= queued(old(self)@.recv_queue, model));
        n == 0
    }

    /// Tell the task that fills the queue to end. The host wakes those who wait.
    pub fn request_pump_cancel(&mut self)
        ensures
            final(self)@ == (UdpModel { pump_cancel: true, ..old(self)@ }),
    {
        self.pump_cancel = true;
    }

    /// What is left to do to have a socket bound to `requested`, or to whatever it is
    /// bound to already.
    pub fn ensure_bound(&self, requested: SockAddr) -> (r: UdpBind)
        ensures
            bind_asked(r) == bind_plan(self@, requested@),
    {
        if self.socket {
            return UdpBind::Bound;
        }
        let only_v6: Option<bool> = match self.family {
            Family::V4 => None,
            Family::V6 => Some(self.ipv6_v6only),
        };
        UdpBind::Open(
            UdpPlan {
                family: self.family,
                reuse_address: self.so_reuseaddr,
                only_v6,
                addr: requested,
            },
        )
    }

    /// Finish making the socket: the address that it is bound to now, or why there is
    /// none.
    pub fn bound(&mut self, made: Result<SockAddr, UdpFailure>) -> (r: Result<SockAddr, i64>)
        ensures
            (crate::sys::socket::addr_result(r), final(self)@) == bound_after(
                old(self)@,
                made_view(made),
            ),
            old(self)@.wf() ==> final(self)@.wf(),
    {
        match made {
            Ok(a) => {
                self.socket = true;
                self.bound_addr = Some(a.copy());
                Ok(a)
            },
            Err(UdpFailure::AddrInUse) => Err(-EADDRINUSE),
            Err(UdpFailure::AddrNotAvailable) => Err(-EADDRNOTAVAIL),
            Err(UdpFailure::Other) => Err(-EIO),
        }
    }

    /// The answer where the socket was there already: the address that the host found
    /// it bound to.
    pub fn still_bound(found: Option<SockAddr>) -> (r: Result<SockAddr, i64>)
        ensures
            r == (match found {
                Some(a) => Ok(a),
                None => Err((-EIO) as i64),
            }),
    {
        match found {
            Some(a) => Ok(a),
            None => Err(-EIO),
        }
    }

    /// The address that the socket is bound to.
    pub fn local_addr(&self) -> (r: Option<SockAddr>)
        ensures
            addr_view(r) == self@.bound_addr,
    {
        match &self.bound_addr {
            Some(a) => Some(a.copy()),
            None => None,
        }
    }
}

/// Datagrams come out in the order in which they went in: what was queued behind
/// others stays behind them.
pub proof fn datagrams_keep_their_order(q: Seq<DatagramModel>, d: DatagramModel)
    requires
        0 < q.len() < RECV_QUEUE_CAP,
    ensures
        queued(q, d)[0] == q[0],
        queued(q, d).drop_first() == queued(q.drop_first(), d),
{
    assert(queued(q, d).drop_first() =~= queued(q.drop_first(), d));
}

/// A full queue loses its oldest datagram and no other.
pub proof fn full_queue_drops_the_oldest(q: Seq<DatagramModel>, d: DatagramModel)
    requires
        q.len() == RECV_QUEUE_CAP,
    ensures
        queued(q, d) == q.drop_first().push(d),
        queued(q, d).len() == RECV_QUEUE_CAP,
{
}

} // verus!
