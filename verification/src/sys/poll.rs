//! `poll`, `ppoll` and `select`.
//!
//! A call looks at each descriptor once. Where nothing is ready and the caller is
//! willing to wait, it hands back what to wait for; the host waits, and says what
//! ended the wait.

use vstd::prelude::*;
use crate::bytes::int16;
use crate::bytes::int32;
use crate::bytes::int64;
use crate::bytes::le;
use crate::bytes::le_len;
use crate::bytes::le_round_trip;
use crate::bytes::le_value;
use crate::bytes::pow256_values;
use crate::bytes::push_le;
use crate::bytes::push_zeros;
use crate::bytes::to_int16;
use crate::bytes::to_int32;
use crate::bytes::to_int64;
use crate::bytes::to_word16;
use crate::bytes::to_word32;
use crate::bytes::word16;
use crate::bytes::word32;
use crate::bytes::zeros;
use crate::errno::EFAULT;
use crate::errno::EINTR;
use crate::errno::EINVAL;
use crate::fd::listening;
use crate::fd::FdModel;
use crate::fd::FdTable;
use crate::fd::Pipe;
use crate::fd::Resource;
use crate::fd::SocketInner;
use crate::fd::SocketModel;
use crate::fd::WakeSource;
use crate::mem::check_range;
use crate::mem::guest_slice;
use crate::mem::guest_word;
use crate::mem::guest_write;
use crate::mem::in_bounds;
use crate::mem::splice;
use crate::mem::splice_leaves_the_rest;
use crate::mem::splice_reads_back;
use crate::mem::window;
use crate::mem::word_at;
use crate::mem::written;
use crate::sys::file::GUEST_LIMIT;

verus! {

broadcast use le_len;

pub const NR_POLL: u32 = 7;
pub const NR_PPOLL: u32 = 271;
pub const NR_SELECT: u32 = 23;

pub const POLLIN: i16 = 0x0001;
pub const POLLPRI: i16 = 0x0002;
pub const POLLOUT: i16 = 0x0004;
pub const POLLERR: i16 = 0x0008;
pub const POLLHUP: i16 = 0x0010;
pub const POLLNVAL: i16 = 0x0020;
pub const POLLRDNORM: i16 = 0x0040;
pub const POLLWRNORM: i16 = 0x0080;
pub const POLLRDBAND: i16 = 0x0100;
pub const POLLWRBAND: i16 = 0x0200;

/// The size of a `struct pollfd`: descriptor, events and returned events.
pub const POLLFD_SIZE: usize = 8;

/// The number of 64-bit words in an `fd_set`.
pub const FD_SET_LONGS: usize = 16;

/// The number of bytes in an `fd_set`.
pub const FD_SET_BYTES: i64 = 128;

/// The number of descriptors that an `fd_set` has room for.
pub const FD_SETSIZE: i32 = 1024;

/// Where in the memory `select` lays out the descriptors that it polls.
pub const SELECT_SCRATCH: i64 = 8192;

/// What ended a wait.
#[derive(Clone, Copy, PartialEq, Eq, Structural, Debug)]
pub enum WaitEvent {
    /// One of the wake sources fired.
    Woken,
    TimedOut,
    /// A signal arrived.
    Interrupted,
}

/// What polling the read end of a pipe returns. It can never be written to.
pub open spec fn pipe_read_revents(events: i16, readable: bool) -> i16 {
    (if readable && events & POLLIN != 0 {
        POLLIN
    } else {
        0
    }) | (if events & POLLOUT != 0 {
        POLLERR
    } else {
        0
    })
}

/// What polling a socket returns. Only a connected socket can be read from or
/// written to.
pub open spec fn socket_revents(events: i16, s: SocketModel) -> i16 {
    (if events & POLLIN == 0 {
        0
    } else if s.stream {
        POLLIN
    } else if listening(s) {
        POLLNVAL
    } else {
        0
    }) | (if events & POLLOUT == 0 {
        0
    } else if s.stream {
        POLLOUT
    } else if s.bound is Some {
        POLLNVAL
    } else {
        0
    })
}

/// What polling the descriptor `fd` for `events` returns.
pub open spec fn revents(f: FdModel, fd: int, events: i16) -> i16 {
    match f.at(fd) {
        None => POLLNVAL,
        Some(res) => match res {
            Resource::Stdin(n) => pipe_read_revents(
                events,
                !f.pipes[n].closed || f.pipes[n].buf.len() > 0,
            ),
            Resource::Stdout(_) => POLLOUT & events,
            Resource::Stderr(_) => POLLOUT & events,
            Resource::File(_) => (POLLIN | POLLOUT) & events,
            Resource::PipeRead(n) => pipe_read_revents(
                events,
                f.pipes[n].buf.len() > 0 || f.pipes[n].closed,
            ),
            Resource::PipeWrite(_) => POLLOUT & events,
            Resource::Socket(n) => socket_revents(events, f.sockets[n]),
            Resource::Epoll(_) => POLLNVAL,
            Resource::EventFd(_) => POLLNVAL,
        },
    }
}

/// What polling the read end of a pipe returns.
pub fn ready_pipe_read(events: i16, has_data_or_eof: bool) -> (r: i16)
    ensures
        r == pipe_read_revents(events, has_data_or_eof),
{
    let readable: i16 = if has_data_or_eof && events & POLLIN != 0 {
        POLLIN
    } else {
        0
    };
    let wrong_end: i16 = if events & POLLOUT != 0 {
        POLLERR
    } else {
        0
    };
    readable | wrong_end
}

/// What polling a socket returns.
pub fn ready_socket(events: i16, s: &SocketInner) -> (r: i16)
    ensures
        r == socket_revents(events, s@),
{
    let readable: i16 = if events & POLLIN == 0 {
        0
    } else if s.stream {
        POLLIN
    } else if s.is_listening() {
        POLLNVAL
    } else {
        0
    };
    let writable: i16 = if events & POLLOUT == 0 {
        0
    } else if s.stream {
        POLLOUT
    } else if s.bound.is_some() {
        POLLNVAL
    } else {
        0
    };
    readable | writable
}

/// What polling one descriptor returns: `POLLNVAL` for one that names nothing, or
/// nothing that can be polled.
pub fn poll_one(fds: &FdTable, fd: i32, events: i16) -> (r: i16)
    requires
        fds@.wf(),
    ensures
        r == revents(fds@, fd as int, events),
{
    let res: Resource = match fds.lookup(fd as i64) {
        Some(r) => r,
        None => {
            return POLLNVAL;
        },
    };
    match res {
        Resource::Stdin(n) => {
            let p: &Pipe = fds.pipe(n);
            ready_pipe_read(events, !p.closed || p.buf.len() > 0)
        },
        Resource::Stdout(_) => POLLOUT & events,
        Resource::Stderr(_) => POLLOUT & events,
        Resource::File(_) => (POLLIN | POLLOUT) & events,
        Resource::PipeRead(n) => {
            let p: &Pipe = fds.pipe(n);
            ready_pipe_read(events, p.buf.len() > 0 || p.closed)
        },
        Resource::PipeWrite(_) => POLLOUT & events,
        Resource::Socket(n) => ready_socket(events, fds.socket(n)),
        Resource::Epoll(_) => POLLNVAL,
        Resource::EventFd(_) => POLLNVAL,
    }
}

/// The descriptor and the requested events of the `struct pollfd` at `ptr`.
pub open spec fn pollfd_at(m: Seq<u8>, ptr: int) -> (i32, i16) {
    (int32(word_at(m, ptr, 4)) as i32, int16(word_at(m, ptr + 4, 2)) as i16)
}

/// The `n` entries of the array of `struct pollfd` at `ptr`.
pub open spec fn pollfds(m: Seq<u8>, ptr: int, n: int) -> Seq<(i32, i16)> {
    Seq::new(n as nat, |i: int| pollfd_at(m, ptr + 8 * i))
}

/// What polling each entry returns.
pub open spec fn readiness(f: FdModel, entries: Seq<(i32, i16)>) -> Seq<i16> {
    Seq::new(entries.len(), |i: int| revents(f, entries[i].0 as int, entries[i].1))
}

/// How many of the results are not zero.
pub open spec fn ready_count(rs: Seq<i16>) -> nat
    decreases rs.len(),
{
    if rs.len() == 0 {
        0
    } else {
        ready_count(rs.drop_last()) + (if rs.last() != 0 {
            1nat
        } else {
            0
        })
    }
}

/// The memory after the results were put into the array of `struct pollfd` at `ptr`.
pub open spec fn revents_put(m: Seq<u8>, ptr: int, rs: Seq<i16>) -> Seq<u8>
    decreases rs.len(),
{
    if rs.len() == 0 {
        m
    } else {
        splice(
            revents_put(m, ptr, rs.drop_last()),
            ptr + 8 * (rs.len() - 1) + 6,
            le(word16(rs.last()), 2),
        )
    }
}

/// What may wake a wait for these entries: a pipe or a socket among them.
pub open spec fn poll_wakes(f: FdModel, entries: Seq<(i32, i16)>) -> Seq<WakeSource>
    decreases entries.len(),
{
    if entries.len() == 0 {
        Seq::empty()
    } else {
        let s = poll_wakes(f, entries.drop_last());
        match f.at(entries.last().0 as int) {
            Some(Resource::PipeRead(n)) => s.push(WakeSource::Pipe(n)),
            Some(Resource::PipeWrite(n)) => s.push(WakeSource::Pipe(n)),
            Some(Resource::Socket(n)) => s.push(WakeSource::SocketRead(n)),
            _ => s,
        }
    }
}

/// A `poll` that waits.
pub struct PollWait {
    pub ptr: i64,
    pub entries: Vec<(i32, i16)>,
    pub wakes: Vec<WakeSource>,
    /// For how many milliseconds, counted from when the call was made; `None` for
    /// as long as it takes.
    pub timeout: Option<i64>,
}

/// What is left to do of a `poll`.
pub enum PollStep {
    Done(i64),
    /// Wait, and go on with `poll_woken`.
    Wait(PollWait),
}

pub struct PollWaitModel {
    pub ptr: int,
    pub entries: Seq<(i32, i16)>,
    pub wakes: Seq<WakeSource>,
    pub timeout: Option<i64>,
}

pub enum PollModel {
    Done(int),
    Wait(PollWaitModel),
}

impl View for PollWait {
    type V = PollWaitModel;

    open spec fn view(&self) -> PollWaitModel {
        PollWaitModel {
            ptr: self.ptr as int,
            entries: self.entries@,
            wakes: self.wakes@,
            timeout: self.timeout,
        }
    }
}

impl View for PollStep {
    type V = PollModel;

    open spec fn view(&self) -> PollModel {
        match self {
            PollStep::Done(r) => PollModel::Done(*r as int),
            PollStep::Wait(w) => PollModel::Wait(w@),
        }
    }
}

/// A poll that ends with these results: how many are not zero, and the memory with
/// the results in it.
pub open spec fn poll_ends(m: Seq<u8>, ptr: int, rs: Seq<i16>) -> (PollModel, Seq<u8>) {
    if in_bounds(m.len(), ptr, rs.len() * 8int) {
        (PollModel::Done(ready_count(rs) as int), revents_put(m, ptr, rs))
    } else {
        (PollModel::Done(-EFAULT), m)
    }
}

/// A look at the entries. The poll ends if any is ready, or if it is `last`.
pub open spec fn poll_look(
    f: FdModel,
    m: Seq<u8>,
    w: PollWaitModel,
    last: bool,
) -> (PollModel, Seq<u8>) {
    let rs = readiness(f, w.entries);
    if last || ready_count(rs) > 0 {
        poll_ends(m, w.ptr, rs)
    } else {
        (PollModel::Wait(w), m)
    }
}

/// What `poll` does with the `nfds` entries at `ptr`.
pub open spec fn poll_call(
    f: FdModel,
    m: Seq<u8>,
    ptr: int,
    nfds: int,
    timeout_ms: i64,
) -> (PollModel, Seq<u8>) {
    if nfds < 0 {
        (PollModel::Done(-EINVAL), m)
    } else if nfds == 0 {
        (PollModel::Done(0), m)
    } else if nfds * 8 > u64::MAX {
        (PollModel::Done(-EINVAL), m)
    } else if !in_bounds(m.len(), ptr, nfds * 8) {
        (PollModel::Done(-EFAULT), m)
    } else {
        let entries = pollfds(m, ptr, nfds);
        poll_look(
            f,
            m,
            PollWaitModel {
                ptr,
                entries,
                wakes: poll_wakes(f, entries),
                timeout: if timeout_ms < 0 {
                    None
                } else {
                    Some(timeout_ms)
                },
            },
            timeout_ms == 0,
        )
    }
}

/// What `poll` does.
pub open spec fn poll_after(f: FdModel, m: Seq<u8>, a: [i64; 6]) -> (PollModel, Seq<u8>) {
    poll_call(f, m, a[0] as int, a[1] as int, a[2])
}

/// What a poll does when its wait ends.
pub open spec fn poll_after_wait(
    f: FdModel,
    m: Seq<u8>,
    w: PollWaitModel,
    e: WaitEvent,
) -> (PollModel, Seq<u8>) {
    match e {
        WaitEvent::Woken => poll_look(f, m, w, false),
        WaitEvent::TimedOut => poll_look(f, m, w, true),
        WaitEvent::Interrupted => (PollModel::Done(-EINTR), m),
    }
}

proof fn revents_put_len(m: Seq<u8>, ptr: int, rs: Seq<i16>)
    ensures
        revents_put(m, ptr, rs).len() == m.len(),
    decreases rs.len(),
{
    if rs.len() > 0 {
        revents_put_len(m, ptr, rs.drop_last());
    }
}

/// Put the results into the array at `fds_ptr`, and count those that are not zero.
pub fn write_revents(mem: &mut [u8], fds_ptr: i64, readiness: &Vec<i16>) -> (r: i64)
    requires
        old(mem)@.len() <= GUEST_LIMIT,
    ensures
        (PollModel::Done(r as int), final(mem)@) == poll_ends(
            old(mem)@,
            fds_ptr as int,
            readiness@,
        ),
        final(mem)@.len() == old(mem)@.len(),
{
    let n: usize = readiness.len();
    if n as u64 > GUEST_LIMIT {
        return -EFAULT;
    }
    match check_range(mem.len(), fds_ptr, n as i64 * 8) {
        Ok(_) => {},
        Err(e) => {
            return e;
        },
    }
    let mut ready: i64 = 0;
    let mut i: usize = 0;
    assert(readiness@.take(0) =~= Seq::empty());
    while i < n
        invariant
            i <= n,
            n == readiness@.len(),
            0 <= ready <= i,
            n <= GUEST_LIMIT,
            mem@.len() == old(mem)@.len(),
            in_bounds(old(mem)@.len(), fds_ptr as int, 8 * n),
            old(mem)@.len() <= GUEST_LIMIT,
            ready == ready_count(readiness@.take(i as int)),
            mem@ == revents_put(old(mem)@, fds_ptr as int, readiness@.take(i as int)),
        decreases n - i,
    {
        let v: i16 = readiness[i];
        let mut b: Vec<u8> = Vec::new();
        push_le(&mut b, to_word16(v) as u64, 2);
        assert(b@ =~= le(word16(v), 2));
        assert(readiness@.take(i + 1).drop_last() =~= readiness@.take(i as int));
        let _ = guest_write(mem, fds_ptr + i as i64 * 8 + 6, b.as_slice());
        if v != 0 {
            ready = ready + 1;
        }
        i = i + 1;
    }
    assert(readiness@.take(n as int) =~= readiness@);
    ready
}

/// Poll each of the entries once.
fn look(fds: &FdTable, entries: &Vec<(i32, i16)>) -> (r: (Vec<i16>, bool))
    requires
        fds@.wf(),
    ensures
        r.0@ == readiness(fds@, entries@),
        r.1 == (ready_count(r.0@) > 0),
{
    let n: usize = entries.len();
    let mut out: Vec<i16> = Vec::new();
    let mut any: bool = false;
    let mut i: usize = 0;
    assert(out@ =~= readiness(fds@, entries@).take(0));
    while i < n
        invariant
            i <= n,
            n == entries@.len(),
            fds@.wf(),
            out@ == readiness(fds@, entries@).take(i as int),
            any == (ready_count(out@) > 0),
        decreases n - i,
    {
        let (fd, events): (i32, i16) = entries[i];
        let v: i16 = poll_one(fds, fd, events);
        let ghost before = out@;
        out.push(v);
        assert(out@.drop_last() =~= before);
        if v != 0 {
            any = true;
        }
        i = i + 1;
        assert(out@ =~= readiness(fds@, entries@).take(i as int));
    }
    assert(out@ =~= readiness(fds@, entries@));
    (out, any)
}

fn look_and_end(fds: &FdTable, mem: &mut [u8], w: PollWait, last: bool) -> (r: PollStep)
    requires
        fds@.wf(),
        old(mem)@.len() <= GUEST_LIMIT,
    ensures
        (r@, final(mem)@) == poll_look(fds@, old(mem)@, w@, last),
        final(mem)@.len() == old(mem)@.len(),
{
    let (rs, any): (Vec<i16>, bool) = look(fds, &w.entries);
    if last || any {
        return PollStep::Done(write_revents(mem, w.ptr, &rs));
    }
    PollStep::Wait(w)
}

/// What may wake a wait for these entries.
fn wakes_of(fds: &FdTable, entries: &Vec<(i32, i16)>) -> (r: Vec<WakeSource>)
    ensures
        r@ == poll_wakes(fds@, entries@),
{
    let n: usize = entries.len();
    let mut out: Vec<WakeSource> = Vec::new();
    let mut i: usize = 0;
    assert(entries@.take(0) =~= Seq::empty());
    assert(out@ =~= Seq::empty());
    while i < n
        invariant
            i <= n,
            n == entries@.len(),
            out@ == poll_wakes(fds@, entries@.take(i as int)),
        decreases n - i,
    {
        assert(entries@.take(i + 1).drop_last() =~= entries@.take(i as int));
        match fds.lookup(entries[i].0 as i64) {
            Some(Resource::PipeRead(n)) => {
                out.push(WakeSource::Pipe(n));
            },
            Some(Resource::PipeWrite(n)) => {
                out.push(WakeSource::Pipe(n));
            },
            Some(Resource::Socket(n)) => {
                out.push(WakeSource::SocketRead(n));
            },
            _ => {},
        }
        i = i + 1;
    }
    assert(entries@.take(n as int) =~= entries@);
    out
}

/// The entries of the array of `struct pollfd` at `ptr`.
fn read_pollfds(mem: &[u8], ptr: i64, n: i64) -> (r: Vec<(i32, i16)>)
    requires
        0 <= n,
        in_bounds(mem@.len(), ptr as int, n * 8),
        mem@.len() <= GUEST_LIMIT,
    ensures
        r@ == pollfds(mem@, ptr as int, n as int),
{
    let mut out: Vec<(i32, i16)> = Vec::new();
    let mut i: i64 = 0;
    assert(out@ =~= pollfds(mem@, ptr as int, 0));
    while i < n
        invariant
            0 <= i <= n,
            in_bounds(mem@.len(), ptr as int, n * 8),
            mem@.len() <= GUEST_LIMIT,
            out@ == pollfds(mem@, ptr as int, i as int),
        decreases n - i,
    {
        proof {
            pow256_values();
        }
        let fd: i32 = match guest_word(mem, ptr + i * 8, 4) {
            Ok(w) => to_int32(w as u32),
            Err(_) => 0,
        };
        let events: i16 = match guest_word(mem, ptr + i * 8 + 4, 2) {
            Ok(w) => to_int16(w as u16),
            Err(_) => 0,
        };
        out.push((fd, events));
        i = i + 1;
        assert(out@ =~= pollfds(mem@, ptr as int, i as int));
    }
    out
}

fn poll_at(fds: &FdTable, mem: &mut [u8], ptr: i64, nfds: i64, timeout_ms: i64) -> (r: PollStep)
    requires
        fds@.wf(),
        old(mem)@.len() <= GUEST_LIMIT,
    ensures
        (r@, final(mem)@) == poll_call(fds@, old(mem)@, ptr as int, nfds as int, timeout_ms),
        final(mem)@.len() == old(mem)@.len(),
{
    if nfds < 0 {
        return PollStep::Done(-EINVAL);
    }
    if nfds == 0 {
        return PollStep::Done(0);
    }
    if nfds as u64 > u64::MAX / 8 {
        return PollStep::Done(-EINVAL);
    }
    if nfds as u64 > GUEST_LIMIT {
        return PollStep::Done(-EFAULT);
    }
    match check_range(mem.len(), ptr, nfds * 8) {
        Ok(_) => {},
        Err(e) => {
            return PollStep::Done(e);
        },
    }
    let entries: Vec<(i32, i16)> = read_pollfds(mem, ptr, nfds);
    let wakes: Vec<WakeSource> = wakes_of(fds, &entries);
    let timeout: Option<i64> = if timeout_ms < 0 {
        None
    } else {
        Some(timeout_ms)
    };
    look_and_end(fds, mem, PollWait { ptr, entries, wakes, timeout }, timeout_ms == 0)
}

/// `poll(fds, nfds, timeout_ms)`. The answer is the number of descriptors that are
/// ready, each with its returned events in the array. A negative timeout waits for
/// as long as it takes, a zero timeout does not wait.
pub fn poll(fds: &FdTable, mem: &mut [u8], a: [i64; 6]) -> (r: PollStep)
    requires
        fds@.wf(),
        old(mem)@.len() <= GUEST_LIMIT,
    ensures
        (r@, final(mem)@) == poll_after(fds@, old(mem)@, a),
        final(mem)@.len() == old(mem)@.len(),
{
    poll_at(fds, mem, a[0], a[1], a[2])
}

/// Go on with a poll whose wait has ended.
pub fn poll_woken(fds: &FdTable, mem: &mut [u8], w: PollWait, e: WaitEvent) -> (r: PollStep)
    requires
        fds@.wf(),
        old(mem)@.len() <= GUEST_LIMIT,
    ensures
        (r@, final(mem)@) == poll_after_wait(fds@, old(mem)@, w@, e),
        final(mem)@.len() == old(mem)@.len(),
{
    match e {
        WaitEvent::Woken => look_and_end(fds, mem, w, false),
        WaitEvent::TimedOut => look_and_end(fds, mem, w, true),
        WaitEvent::Interrupted => PollStep::Done(-EINTR),
    }
}

/// The integer in the eight bytes at `ptr`.
pub open spec fn int64_at(m: Seq<u8>, ptr: int) -> int {
    int64(word_at(m, ptr, 8))
}

/// `n`, or the largest 64-bit integer where that is less.
pub open spec fn capped(n: int) -> i64 {
    if n > i64::MAX {
        i64::MAX
    } else {
        n as i64
    }
}

/// The timeout in milliseconds that a `struct timespec` at `ptr` stands for: -1, to
/// wait for as long as it takes, where the address is zero. A time too long to count
/// is the longest that can be counted.
pub open spec fn timespec_ms(m: Seq<u8>, ptr: int) -> Result<i64, i64> {
    let sec = int64_at(m, ptr);
    let nsec = int64_at(m, ptr + 8);
    if ptr == 0 {
        Ok((-1) as i64)
    } else if !in_bounds(m.len(), ptr, 16) {
        Err((-EFAULT) as i64)
    } else if sec < 0 || nsec < 0 || nsec >= 1_000_000_000 {
        Err((-EINVAL) as i64)
    } else {
        Ok(capped(capped(sec * 1000) + nsec / 1_000_000))
    }
}

/// The pair of integers in the sixteen bytes at `ptr`.
pub fn int64_pair(mem: &[u8], ptr: i64) -> (r: Result<(i64, i64), i64>)
    ensures
        match r {
            Ok((x, y)) => in_bounds(mem@.len(), ptr as int, 16) && x == int64_at(mem@, ptr as int)
                && y == int64_at(mem@, ptr + 8),
            Err(e) => !in_bounds(mem@.len(), ptr as int, 16) && e == -EFAULT,
        },
{
    match guest_slice(mem, ptr, 16) {
        Ok(b) => {
            proof {
                assert(b@.subrange(0, 8) =~= window(mem@, ptr as int, 8));
                assert(b@.subrange(8, 16) =~= window(mem@, ptr + 8, 8));
            }
            let x: i64 = to_int64(crate::bytes::read_le(b.as_slice(), 0, 8));
            let y: i64 = to_int64(crate::bytes::read_le(b.as_slice(), 8, 8));
            Ok((x, y))
        },
        Err(e) => Err(e),
    }
}

/// `1000 * s + ms`, or the largest 64-bit integer where that is less.
fn milliseconds(s: i64, ms: i64) -> (r: i64)
    requires
        s >= 0,
        0 <= ms,
    ensures
        r == capped(capped(s * 1000) + ms),
{
    let whole: i64 = if s > i64::MAX / 1000 {
        i64::MAX
    } else {
        s * 1000
    };
    if ms > i64::MAX - whole {
        i64::MAX
    } else {
        whole + ms
    }
}

/// The timeout in milliseconds that the `struct timespec` at `ptr` stands for.
pub fn read_timespec_ms(mem: &[u8], ptr: i64) -> (r: Result<i64, i64>)
    ensures
        r == timespec_ms(mem@, ptr as int),
{
    if ptr == 0 {
        return Ok(-1);
    }
    match int64_pair(mem, ptr) {
        Err(e) => Err(e),
        Ok((sec, nsec)) => {
            if sec < 0 || nsec < 0 || nsec >= 1_000_000_000 {
                return Err(-EINVAL);
            }
            Ok(milliseconds(sec, nsec / 1_000_000))
        },
    }
}

/// What `ppoll` does.
pub open spec fn ppoll_after(f: FdModel, m: Seq<u8>, a: [i64; 6]) -> (PollModel, Seq<u8>) {
    if a[1] < 0 {
        (PollModel::Done(-EINVAL), m)
    } else if a[1] == 0 {
        (PollModel::Done(0), m)
    } else {
        match timespec_ms(m, a[2] as int) {
            Err(e) => (PollModel::Done(e as int), m),
            Ok(t) => poll_call(f, m, a[0] as int, a[1] as int, t),
        }
    }
}

/// `ppoll(fds, nfds, timespec, ..)`: as `poll`, with the timeout in a
/// `struct timespec`. The signal mask has no effect.
pub fn ppoll(fds: &FdTable, mem: &mut [u8], a: [i64; 6]) -> (r: PollStep)
    requires
        fds@.wf(),
        old(mem)@.len() <= GUEST_LIMIT,
    ensures
        (r@, final(mem)@) == ppoll_after(fds@, old(mem)@, a),
        final(mem)@.len() == old(mem)@.len(),
{
    if a[1] < 0 {
        return PollStep::Done(-EINVAL);
    }
    if a[1] == 0 {
        return PollStep::Done(0);
    }
    match read_timespec_ms(mem, a[2]) {
        Err(e) => PollStep::Done(e),
        Ok(t) => poll_at(fds, mem, a[0], a[1], t),
    }
}

/// Whether bit `bit` of `w` is set.
pub open spec fn has_bit(w: u64, bit: u64) -> bool {
    (w >> bit) & 1 != 0
}

/// Whether the `fd_set` at `set` holds the descriptor `fd`. None does at address
/// zero, or outside the memory.
pub open spec fn in_fd_set(m: Seq<u8>, set: int, fd: int) -> bool {
    &&& set != 0
    &&& in_bounds(m.len(), set, FD_SET_BYTES as int)
    &&& has_bit(word_at(m, set + 8 * (fd / 64), 8) as u64, (fd % 64) as u64)
}

/// The events that a `select` on these two sets asks for of `fd`; none where neither
/// holds it.
pub open spec fn select_events(m: Seq<u8>, rset: int, wset: int, fd: int) -> Option<i16> {
    if in_fd_set(m, rset, fd) && in_fd_set(m, wset, fd) {
        Some(POLLIN | POLLOUT)
    } else if in_fd_set(m, rset, fd) {
        Some(POLLIN)
    } else if in_fd_set(m, wset, fd) {
        Some(POLLOUT)
    } else {
        None
    }
}

/// What a `select` on these two sets polls: each descriptor below `n` that is in
/// one of them, in order.
pub open spec fn select_entries(m: Seq<u8>, rset: int, wset: int, n: nat) -> Seq<(i32, i16)>
    decreases n,
{
    if n == 0 {
        Seq::empty()
    } else {
        let s = select_entries(m, rset, wset, (n - 1) as nat);
        match select_events(m, rset, wset, n - 1) {
            Some(ev) => s.push(((n - 1) as i32, ev)),
            None => s,
        }
    }
}

/// The array of `struct pollfd` that holds the entries, without results.
pub open spec fn pollfd_image(entries: Seq<(i32, i16)>) -> Seq<u8>
    decreases entries.len(),
{
    if entries.len() == 0 {
        Seq::empty()
    } else {
        pollfd_image(entries.drop_last()) + le(word32(entries.last().0), 4) + le(
            word16(entries.last().1),
            2,
        ) + le(0, 2)
    }
}

/// The timeout in milliseconds that a `struct timeval` at `ptr` stands for: -1, to
/// wait for as long as it takes, where the address is zero. A time too long to count
/// is the longest that can be counted.
pub open spec fn timeval_ms(m: Seq<u8>, ptr: int) -> Result<i64, i64> {
    let sec = int64_at(m, ptr);
    let usec = int64_at(m, ptr + 8);
    if ptr == 0 {
        Ok((-1) as i64)
    } else if !in_bounds(m.len(), ptr, 16) {
        Err((-EFAULT) as i64)
    } else if sec < 0 || usec < 0 {
        Err((-EINVAL) as i64)
    } else {
        Ok(capped(capped(sec * 1000) + usec / 1000))
    }
}

/// The returned events of the `n` entries of the array of `struct pollfd` at `ptr`.
pub open spec fn revents_at(m: Seq<u8>, ptr: int, n: int) -> Seq<i16> {
    Seq::new(n as nat, |i: int| int16(word_at(m, ptr + 8 * i + 6, 2)) as i16)
}

/// The memory with the `fd_set` at `set` empty.
pub open spec fn fd_set_cleared(m: Seq<u8>, set: int) -> Seq<u8> {
    if set != 0 {
        written(m, set, zeros(FD_SET_BYTES as nat))
    } else {
        m
    }
}

/// The memory with `fd` in the `fd_set` at `set`, if the set has room for it.
pub open spec fn fd_bit_set(m: Seq<u8>, set: int, fd: int) -> Seq<u8> {
    let at = set + 8 * (fd / 64);
    if fd / 64 < FD_SET_LONGS && in_bounds(m.len(), at, 8) {
        splice(m, at, le(((word_at(m, at, 8) as u64) | (1u64 << ((fd % 64) as u64))) as nat, 8))
    } else {
        m
    }
}

/// The memory after each entry's descriptor was put into the sets for which it was
/// asked for and is ready.
pub open spec fn fd_bits_set(
    m: Seq<u8>,
    rset: int,
    wset: int,
    entries: Seq<(i32, i16)>,
    rs: Seq<i16>,
) -> Seq<u8>
    decreases entries.len(),
{
    if entries.len() == 0 {
        m
    } else {
        let n = entries.len() - 1;
        let (fd, ev) = entries[n];
        let m0 = fd_bits_set(m, rset, wset, entries.drop_last(), rs);
        let m1 = if rs[n] & POLLIN != 0 && ev & POLLIN != 0 && rset != 0 {
            fd_bit_set(m0, rset, fd as int)
        } else {
            m0
        };
        if rs[n] & POLLOUT != 0 && ev & POLLOUT != 0 && wset != 0 {
            fd_bit_set(m1, wset, fd as int)
        } else {
            m1
        }
    }
}

/// A `select` under way: what it polls, and the sets that it reports in.
pub struct Selection {
    pub entries: Vec<(i32, i16)>,
    pub rset: i64,
    pub wset: i64,
}

pub struct SelectionModel {
    pub entries: Seq<(i32, i16)>,
    pub rset: int,
    pub wset: int,
}

impl View for Selection {
    type V = SelectionModel;

    open spec fn view(&self) -> SelectionModel {
        SelectionModel {
            entries: self.entries@,
            rset: self.rset as int,
            wset: self.wset as int,
        }
    }
}

/// What is left to do of a `select`.
pub enum SelectStep {
    Done(i64),
    /// Wait, and go on with `select_woken`.
    Wait(PollWait, Selection),
}

pub enum SelectModel {
    Done(int),
    Wait(PollWaitModel, SelectionModel),
}

impl View for SelectStep {
    type V = SelectModel;

    open spec fn view(&self) -> SelectModel {
        match self {
            SelectStep::Done(r) => SelectModel::Done(*r as int),
            SelectStep::Wait(w, s) => SelectModel::Wait(w@, s@),
        }
    }
}

/// The memory after the sets were filled with what the poll found.
pub open spec fn select_reported(m: Seq<u8>, s: SelectionModel) -> Seq<u8> {
    fd_bits_set(
        fd_set_cleared(fd_set_cleared(m, s.rset), s.wset),
        s.rset,
        s.wset,
        s.entries,
        revents_at(m, SELECT_SCRATCH as int, s.entries.len() as int),
    )
}

/// A `select` after its poll took this step.
pub open spec fn select_polled(p: (PollModel, Seq<u8>), s: SelectionModel) -> (
    SelectModel,
    Seq<u8>,
) {
    match p.0 {
        PollModel::Wait(w) => (SelectModel::Wait(w, s), p.1),
        PollModel::Done(r) => if r < 0 {
            (SelectModel::Done(r), p.1)
        } else if !in_bounds(p.1.len(), SELECT_SCRATCH as int, s.entries.len() * 8int) {
            (SelectModel::Done(-EFAULT), p.1)
        } else {
            (SelectModel::Done(r), select_reported(p.1, s))
        },
    }
}

/// What `select` does.
pub open spec fn select_after(f: FdModel, m: Seq<u8>, a: [i64; 6]) -> (SelectModel, Seq<u8>) {
    let n = if a[0] < FD_SETSIZE {
        a[0] as nat
    } else {
        FD_SETSIZE as nat
    };
    let entries = select_entries(m, a[1] as int, a[2] as int, n);
    let scratch = written(m, SELECT_SCRATCH as int, pollfd_image(entries));
    if a[0] < 0 || a[0] > i32::MAX {
        (SelectModel::Done(-EINVAL), m)
    } else if entries.len() == 0 {
        (SelectModel::Done(0), m)
    } else if !in_bounds(m.len(), SELECT_SCRATCH as int, entries.len() * 8int) {
        (SelectModel::Done(-EFAULT), m)
    } else {
        match timeval_ms(scratch, a[4] as int) {
            Err(e) => (SelectModel::Done(e as int), scratch),
            Ok(t) => select_polled(
                poll_call(f, scratch, SELECT_SCRATCH as int, entries.len() as int, t),
                SelectionModel { entries, rset: a[1] as int, wset: a[2] as int },
            ),
        }
    }
}

/// The timeout in milliseconds that the `struct timeval` at `ptr` stands for.
fn read_timeval_ms(mem: &[u8], ptr: i64) -> (r: Result<i64, i64>)
    ensures
        r == timeval_ms(mem@, ptr as int),
{
    if ptr == 0 {
        return Ok(-1);
    }
    match int64_pair(mem, ptr) {
        Err(e) => Err(e),
        Ok((sec, usec)) => {
            if sec < 0 || usec < 0 {
                return Err(-EINVAL);
            }
            Ok(milliseconds(sec, usec / 1000))
        },
    }
}

fn fd_set_holds(mem: &[u8], set: i64, fd: i32) -> (r: bool)
    requires
        0 <= fd < FD_SETSIZE,
        mem@.len() <= GUEST_LIMIT,
    ensures
        r == in_fd_set(mem@, set as int, fd as int),
{
    if set == 0 {
        return false;
    }
    match check_range(mem.len(), set, FD_SET_BYTES) {
        Ok(_) => {},
        Err(_) => {
            return false;
        },
    }
    match guest_word(mem, set + (fd as i64 / 64) * 8, 8) {
        Ok(w) => (w >> ((fd as u64) % 64)) & 1 != 0,
        Err(_) => false,
    }
}

/// The entries for the descriptors below `n`.
fn collect_entries(mem: &[u8], rset: i64, wset: i64, n: i32) -> (r: Vec<(i32, i16)>)
    requires
        0 <= n <= FD_SETSIZE,
        mem@.len() <= GUEST_LIMIT,
    ensures
        r@ == select_entries(mem@, rset as int, wset as int, n as nat),
        r@.len() <= n,
{
    let mut out: Vec<(i32, i16)> = Vec::new();
    let mut fd: i32 = 0;
    assert(out@ =~= Seq::empty());
    while fd < n
        invariant
            0 <= fd <= n <= FD_SETSIZE,
            mem@.len() <= GUEST_LIMIT,
            out@.len() <= fd,
            out@ == select_entries(mem@, rset as int, wset as int, fd as nat),
        decreases n - fd,
    {
        let in_read: bool = fd_set_holds(mem, rset, fd);
        let in_write: bool = fd_set_holds(mem, wset, fd);
        if in_read && in_write {
            out.push((fd, POLLIN | POLLOUT));
        } else if in_read {
            out.push((fd, POLLIN));
        } else if in_write {
            out.push((fd, POLLOUT));
        }
        fd = fd + 1;
    }
    out
}

/// The array of `struct pollfd` for these entries.
fn encode_pollfds(entries: &Vec<(i32, i16)>) -> (r: Vec<u8>)
    ensures
        r@ == pollfd_image(entries@),
        r@.len() == entries@.len() * 8,
{
    let n: usize = entries.len();
    let mut out: Vec<u8> = Vec::new();
    let mut i: usize = 0;
    assert(entries@.take(0) =~= Seq::empty());
    assert(out@ =~= Seq::empty());
    while i < n
        invariant
            i <= n,
            n == entries@.len(),
            out@ == pollfd_image(entries@.take(i as int)),
            out@.len() == i * 8,
        decreases n - i,
    {
        assert(entries@.take(i + 1).drop_last() =~= entries@.take(i as int));
        let (fd, ev): (i32, i16) = entries[i];
        push_le(&mut out, to_word32(fd) as u64, 4);
        push_le(&mut out, to_word16(ev) as u64, 2);
        push_le(&mut out, 0, 2);
        i = i + 1;
        assert(out@ =~= pollfd_image(entries@.take(i as int)));
    }
    assert(entries@.take(n as int) =~= entries@);
    out
}

/// Empty the `fd_set` at `set`.
pub fn clear_fd_set(mem: &mut [u8], set: i64)
    ensures
        final(mem)@ == fd_set_cleared(old(mem)@, set as int),
        final(mem)@.len() == old(mem)@.len(),
{
    if set != 0 {
        let mut b: Vec<u8> = Vec::new();
        push_zeros(&mut b, FD_SET_BYTES as usize);
        assert(b@ =~= zeros(FD_SET_BYTES as nat));
        let _ = guest_write(mem, set, b.as_slice());
    }
}

/// Put `fd` into the `fd_set` at `set`.
pub fn set_fd_bit(mem: &mut [u8], set: i64, fd: i32)
    requires
        fd >= 0,
        old(mem)@.len() <= GUEST_LIMIT,
    ensures
        final(mem)@ == fd_bit_set(old(mem)@, set as int, fd as int),
        final(mem)@.len() == old(mem)@.len(),
{
    let word: i64 = fd as i64 / 64;
    if word >= FD_SET_LONGS as i64 || set > 0x1_0000_0000 {
        return;
    }
    let at: i64 = set + word * 8;
    match guest_word(mem, at, 8) {
        Ok(w) => {
            let v: u64 = w | (1u64 << ((fd as u64) % 64));
            let mut b: Vec<u8> = Vec::new();
            push_le(&mut b, v, 8);
            assert(b@ =~= le(v as nat, 8));
            let _ = guest_write(mem, at, b.as_slice());
        },
        Err(_) => {},
    }
}

fn set_fd_bits(mem: &mut [u8], s: &Selection, rs: &Vec<i16>)
    requires
        old(mem)@.len() <= GUEST_LIMIT,
        rs@.len() == s.entries@.len(),
        proper_selection(s@),
    ensures
        final(mem)@ == fd_bits_set(
            old(mem)@,
            s.rset as int,
            s.wset as int,
            s.entries@,
            rs@,
        ),
        final(mem)@.len() == old(mem)@.len(),
{
    let n: usize = s.entries.len();
    let mut i: usize = 0;
    assert(s.entries@.take(0) =~= Seq::empty());
    while i < n
        invariant
            i <= n,
            n == s.entries@.len(),
            n == rs@.len(),
            old(mem)@.len() <= GUEST_LIMIT,
            mem@.len() == old(mem)@.len(),
            proper_selection(s@),
            mem@ == fd_bits_set(
                old(mem)@,
                s.rset as int,
                s.wset as int,
                s.entries@.take(i as int),
                rs@,
            ),
        decreases n - i,
    {
        assert(s.entries@.take(i + 1).drop_last() =~= s.entries@.take(i as int));
        assert(s.entries@.take(i + 1)[i as int] == s.entries@[i as int]);
        assert(s@.entries[i as int].0 >= 0);
        let (fd, ev): (i32, i16) = s.entries[i];
        let v: i16 = rs[i];
        if v & POLLIN != 0 && ev & POLLIN != 0 && s.rset != 0 {
            set_fd_bit(mem, s.rset, fd);
        }
        if v & POLLOUT != 0 && ev & POLLOUT != 0 && s.wset != 0 {
            set_fd_bit(mem, s.wset, fd);
        }
        i = i + 1;
    }
    assert(s.entries@.take(n as int) =~= s.entries@);
}

/// The returned events in the array at the scratch place.
fn read_revents(mem: &[u8], n: usize) -> (r: Vec<i16>)
    requires
        in_bounds(mem@.len(), SELECT_SCRATCH as int, n * 8),
        mem@.len() <= GUEST_LIMIT,
    ensures
        r@ == revents_at(mem@, SELECT_SCRATCH as int, n as int),
{
    let mut out: Vec<i16> = Vec::new();
    let mut i: usize = 0;
    assert(out@ =~= revents_at(mem@, SELECT_SCRATCH as int, 0));
    while i < n
        invariant
            i <= n,
            in_bounds(mem@.len(), SELECT_SCRATCH as int, n * 8),
            mem@.len() <= GUEST_LIMIT,
            out@ == revents_at(mem@, SELECT_SCRATCH as int, i as int),
        decreases n - i,
    {
        proof {
            pow256_values();
        }
        let v: i16 = match guest_word(mem, SELECT_SCRATCH + i as i64 * 8 + 6, 2) {
            Ok(w) => to_int16(w as u16),
            Err(_) => 0,
        };
        out.push(v);
        i = i + 1;
        assert(out@ =~= revents_at(mem@, SELECT_SCRATCH as int, i as int));
    }
    out
}

/// Whether no descriptor of the selection is negative.
pub open spec fn proper_selection(s: SelectionModel) -> bool {
    forall|i: int| 0 <= i < s.entries.len() ==> (#[trigger] s.entries[i]).0 >= 0
}

/// The step of a `select` after its poll took a step.
fn after_poll(mem: &mut [u8], p: PollStep, s: Selection) -> (r: SelectStep)
    requires
        old(mem)@.len() <= GUEST_LIMIT,
        proper_selection(s@),
    ensures
        (r@, final(mem)@) == select_polled((p@, old(mem)@), s@),
        final(mem)@.len() == old(mem)@.len(),
{
    let ret: i64 = match p {
        PollStep::Wait(w) => {
            return SelectStep::Wait(w, s);
        },
        PollStep::Done(ret) => ret,
    };
    if ret < 0 {
        return SelectStep::Done(ret);
    }
    let n: usize = s.entries.len();
    if n as u64 > GUEST_LIMIT {
        return SelectStep::Done(-EFAULT);
    }
    match check_range(mem.len(), SELECT_SCRATCH, n as i64 * 8) {
        Ok(_) => {},
        Err(e) => {
            return SelectStep::Done(e);
        },
    }
    let rs: Vec<i16> = read_revents(mem, n);
    clear_fd_set(mem, s.rset);
    clear_fd_set(mem, s.wset);
    set_fd_bits(mem, &s, &rs);
    SelectStep::Done(ret)
}

proof fn select_entries_are_proper(m: Seq<u8>, rset: int, wset: int, n: nat)
    requires
        n <= FD_SETSIZE,
    ensures
        forall|i: int|
            0 <= i < select_entries(m, rset, wset, n).len() ==> 0 <= (#[trigger] select_entries(
                m,
                rset,
                wset,
                n,
            )[i]).0 < n,
    decreases n,
{
    if n > 0 {
        let before = select_entries(m, rset, wset, (n - 1) as nat);
        let now = select_entries(m, rset, wset, n);
        select_entries_are_proper(m, rset, wset, (n - 1) as nat);
        assert forall|i: int| 0 <= i < now.len() implies 0 <= (#[trigger] now[i]).0 < n by {
            if i < before.len() {
                assert(now[i] == before[i]);
            }
        }
    }
}

/// `select(nfds, readfds, writefds, exceptfds, timeout)`. The answer is the number of
/// descriptors that are ready or cannot be polled, and each of the two sets is left
/// with those that are ready. The third set has no effect.
pub fn select(fds: &FdTable, mem: &mut [u8], a: [i64; 6]) -> (r: SelectStep)
    requires
        fds@.wf(),
        old(mem)@.len() <= GUEST_LIMIT,
    ensures
        (r@, final(mem)@) == select_after(fds@, old(mem)@, a),
        r@ matches SelectModel::Wait(_, s) ==> proper_selection(s),
        final(mem)@.len() == old(mem)@.len(),
{
    if a[0] < 0 || a[0] > i32::MAX as i64 {
        return SelectStep::Done(-EINVAL);
    }
    let n: i32 = if a[0] < FD_SETSIZE as i64 {
        a[0] as i32
    } else {
        FD_SETSIZE
    };
    let entries: Vec<(i32, i16)> = collect_entries(mem, a[1], a[2], n);
    if entries.len() == 0 {
        return SelectStep::Done(0);
    }
    proof {
        select_entries_are_proper(mem@, a[1] as int, a[2] as int, n as nat);
    }
    let image: Vec<u8> = encode_pollfds(&entries);
    match guest_write(mem, SELECT_SCRATCH, image.as_slice()) {
        Ok(_) => {},
        Err(e) => {
            return SelectStep::Done(e);
        },
    }
    let timeout_ms: i64 = match read_timeval_ms(mem, a[4]) {
        Ok(t) => t,
        Err(e) => {
            return SelectStep::Done(e);
        },
    };
    let p: PollStep = poll_at(fds, mem, SELECT_SCRATCH, entries.len() as i64, timeout_ms);
    after_poll(mem, p, Selection { entries, rset: a[1], wset: a[2] })
}

/// Go on with a `select` whose wait has ended.
pub fn select_woken(fds: &FdTable, mem: &mut [u8], w: PollWait, s: Selection, e: WaitEvent) -> (r:
    SelectStep)
    requires
        fds@.wf(),
        old(mem)@.len() <= GUEST_LIMIT,
        proper_selection(s@),
    ensures
        (r@, final(mem)@) == select_polled(poll_after_wait(fds@, old(mem)@, w@, e), s@),
        r@ matches SelectModel::Wait(_, t) ==> t == s@,
        final(mem)@.len() == old(mem)@.len(),
{
    let p: PollStep = poll_woken(fds, mem, w, e);
    after_poll(mem, p, s)
}

/// Results written into an array of `struct pollfd` are read back from it, and what
/// was asked for is still there.
pub proof fn results_read_back(m: Seq<u8>, ptr: int, rs: Seq<i16>)
    requires
        in_bounds(m.len(), ptr, rs.len() * 8int),
    ensures
        revents_at(revents_put(m, ptr, rs), ptr, rs.len() as int) == rs,
        pollfds(revents_put(m, ptr, rs), ptr, rs.len() as int) == pollfds(
            m,
            ptr,
            rs.len() as int,
        ),
    decreases rs.len(),
{
    let n = rs.len() as int;
    let after = revents_put(m, ptr, rs);
    if n > 0 {
        let rest = rs.drop_last();
        let before = revents_put(m, ptr, rest);
        let b = le(word16(rs.last()), 2);
        let at = ptr + 8 * (n - 1) + 6;
        results_read_back(m, ptr, rest);
        revents_put_len(m, ptr, rest);
        pow256_values();
        le_round_trip(word16(rs.last()), 2);
        splice_reads_back(before, at, b);
        assert(revents_at(after, ptr, n)[n - 1] == rs[n - 1]);
        assert forall|i: int| 0 <= i < n - 1 implies revents_at(after, ptr, n)[i] == rs[i] by {
            splice_leaves_the_rest(before, at, b, ptr + 8 * i + 6, 2);
            assert(revents_at(before, ptr, n - 1)[i] == rest[i]);
        }
        assert forall|i: int| 0 <= i < n implies #[trigger] pollfds(after, ptr, n)[i] == pollfds(
            before,
            ptr,
            n,
        )[i] by {
            splice_leaves_the_rest(before, at, b, ptr + 8 * i, 4);
            splice_leaves_the_rest(before, at, b, ptr + 8 * i + 4, 2);
        }
        untouched_entry(m, ptr, rest, n - 1);
        assert forall|i: int| 0 <= i < n implies #[trigger] pollfds(before, ptr, n)[i] == pollfds(
            m,
            ptr,
            n,
        )[i] by {
            if i < n - 1 {
                assert(pollfds(before, ptr, n - 1)[i] == pollfds(m, ptr, n - 1)[i]);
            }
        }
        assert(revents_at(after, ptr, n) =~= rs);
        assert(pollfds(after, ptr, n) =~= pollfds(m, ptr, n));
    } else {
        assert(revents_at(after, ptr, 0) =~= rs);
    }
}

/// Results for the first entries leave a later entry alone.
proof fn untouched_entry(m: Seq<u8>, ptr: int, rs: Seq<i16>, i: int)
    requires
        rs.len() <= i,
        in_bounds(m.len(), ptr, 8 * (i + 1)),
    ensures
        pollfd_at(revents_put(m, ptr, rs), ptr + 8 * i) == pollfd_at(m, ptr + 8 * i),
    decreases rs.len(),
{
    if rs.len() > 0 {
        let rest = rs.drop_last();
        let before = revents_put(m, ptr, rest);
        untouched_entry(m, ptr, rest, i);
        revents_put_len(m, ptr, rest);
        let at = ptr + 8 * (rs.len() - 1) + 6;
        splice_leaves_the_rest(before, at, le(word16(rs.last()), 2), ptr + 8 * i, 4);
        splice_leaves_the_rest(before, at, le(word16(rs.last()), 2), ptr + 8 * i + 4, 2);
    }
}

proof fn pollfd_image_len(entries: Seq<(i32, i16)>)
    ensures
        pollfd_image(entries).len() == 8 * entries.len(),
    decreases entries.len(),
{
    if entries.len() > 0 {
        pollfd_image_len(entries.drop_last());
    }
}

/// The entries laid out as an array of `struct pollfd` are read back from it: a
/// `select` polls the descriptors in its sets, for what each set asks.
pub proof fn entries_read_back(m: Seq<u8>, ptr: int, entries: Seq<(i32, i16)>)
    requires
        in_bounds(m.len(), ptr, entries.len() * 8int),
    ensures
        pollfds(splice(m, ptr, pollfd_image(entries)), ptr, entries.len() as int) == entries,
    decreases entries.len(),
{
    let n = entries.len() as int;
    let after = splice(m, ptr, pollfd_image(entries));
    pollfd_image_len(entries);
    if n > 0 {
        let rest = entries.drop_last();
        let (fd, ev) = entries.last();
        let head = pollfd_image(rest);
        let before = splice(m, ptr, head);
        pollfd_image_len(rest);
        entries_read_back(m, ptr, rest);
        pow256_values();
        le_round_trip(word32(fd), 4);
        le_round_trip(word16(ev), 2);
        let at = ptr + 8 * (n - 1);
        assert(window(after, at, 4) =~= le(word32(fd), 4));
        assert(window(after, at + 4, 2) =~= le(word16(ev), 2));
        assert forall|i: int| 0 <= i < n - 1 implies #[trigger] pollfds(after, ptr, n)[i]
            == entries[i] by {
            assert(window(after, ptr + 8 * i, 4) =~= window(before, ptr + 8 * i, 4));
            assert(window(after, ptr + 8 * i + 4, 2) =~= window(before, ptr + 8 * i + 4, 2));
            assert(pollfds(before, ptr, n - 1)[i] == rest[i]);
        }
        assert(pollfds(after, ptr, n)[n - 1] == entries[n - 1]);
    }
    assert(pollfds(after, ptr, n) =~= entries);
}

/// Whether two `fd_set`s, both inside the memory, do not overlap.
pub open spec fn sets_apart(m: Seq<u8>, a: int, b: int) -> bool {
    &&& a != 0
    &&& b != 0
    &&& in_bounds(m.len(), a, FD_SET_BYTES as int)
    &&& in_bounds(m.len(), b, FD_SET_BYTES as int)
    &&& a + FD_SET_BYTES <= b || b + FD_SET_BYTES <= a
}

/// Putting a descriptor into one set changes that set by it, and no other set.
pub proof fn setting_a_bit(m: Seq<u8>, set: int, other: int, fd: int, g: int)
    requires
        sets_apart(m, set, other),
        0 <= fd < FD_SETSIZE,
        0 <= g < FD_SETSIZE,
    ensures
        in_fd_set(fd_bit_set(m, set, fd), set, g) == (g == fd || in_fd_set(m, set, g)),
        in_fd_set(fd_bit_set(m, set, fd), other, g) == in_fd_set(m, other, g),
{
    let at = set + 8 * (fd / 64);
    let w = word_at(m, at, 8) as u64;
    let bit = (fd % 64) as u64;
    let v = w | (1u64 << bit);
    let after = fd_bit_set(m, set, fd);
    let c = (g % 64) as u64;
    pow256_values();
    le_round_trip(v as nat, 8);
    splice_reads_back(m, at, le(v as nat, 8));
    splice_leaves_the_rest(m, at, le(v as nat, 8), other + 8 * (g / 64), 8);
    if g / 64 == fd / 64 {
        assert(has_bit(v, c) == (bit == c || has_bit(w, c))) by (bit_vector)
            requires
                v == w | (1u64 << bit),
                bit < 64,
                c < 64,
        ;
        assert(word_at(after, at, 8) == v);
    } else {
        splice_leaves_the_rest(m, at, le(v as nat, 8), set + 8 * (g / 64), 8);
    }
}

/// An empty set holds nothing, and emptying one changes no other set.
pub proof fn clearing_a_set(m: Seq<u8>, set: int, other: int, g: int)
    requires
        sets_apart(m, set, other),
        0 <= g < FD_SETSIZE,
    ensures
        !in_fd_set(fd_set_cleared(m, set), set, g),
        in_fd_set(fd_set_cleared(m, set), other, g) == in_fd_set(m, other, g),
{
    let after = fd_set_cleared(m, set);
    let z = zeros(FD_SET_BYTES as nat);
    splice_leaves_the_rest(m, set, z, other + 8 * (g / 64), 8);
    assert(window(after, set + 8 * (g / 64), 8) =~= zeros(8));
    zeros_are_zero(8);
    let c = (g % 64) as u64;
    assert(!has_bit(0, c)) by (bit_vector)
        requires
            c < 64,
    ;
}

proof fn zeros_are_zero(n: nat)
    ensures
        le_value(zeros(n)) == 0,
    decreases n,
{
    if n > 0 {
        zeros_are_zero((n - 1) as nat);
        assert(zeros(n).drop_first() =~= zeros((n - 1) as nat));
    }
}

/// Whether `fd` is among the entries as one that is ready for `bit` and was asked
/// for it.
pub open spec fn reported(entries: Seq<(i32, i16)>, rs: Seq<i16>, bit: i16, fd: int) -> bool {
    exists|i: int|
        0 <= i < entries.len() && (#[trigger] entries[i]).0 == fd && rs[i] & bit != 0 && entries[i].1
            & bit != 0
}

proof fn reported_step(entries: Seq<(i32, i16)>, rs: Seq<i16>, bit: i16, fd: int)
    requires
        entries.len() > 0,
    ensures
        reported(entries, rs, bit, fd) == (reported(entries.drop_last(), rs, bit, fd) || (
        entries.last().0 == fd && rs[entries.len() - 1] & bit != 0 && entries.last().1 & bit != 0)),
{
    let rest = entries.drop_last();
    if reported(entries, rs, bit, fd) {
        let i = choose|i: int|
            0 <= i < entries.len() && (#[trigger] entries[i]).0 == fd && rs[i] & bit != 0
                && entries[i].1 & bit != 0;
        if i < rest.len() {
            assert(rest[i] == entries[i]);
        }
    }
    if reported(rest, rs, bit, fd) {
        let i = choose|i: int|
            0 <= i < rest.len() && (#[trigger] rest[i]).0 == fd && rs[i] & bit != 0 && rest[i].1
                & bit != 0;
        assert(rest[i] == entries[i]);
    }
    assert(entries[entries.len() - 1] == entries.last());
}

proof fn bits_are_the_reported(
    m: Seq<u8>,
    rset: int,
    wset: int,
    entries: Seq<(i32, i16)>,
    rs: Seq<i16>,
    g: int,
)
    requires
        sets_apart(m, rset, wset),
        0 <= g < FD_SETSIZE,
        forall|i: int| 0 <= i < entries.len() ==> 0 <= (#[trigger] entries[i]).0 < FD_SETSIZE,
    ensures
        fd_bits_set(m, rset, wset, entries, rs).len() == m.len(),
        in_fd_set(fd_bits_set(m, rset, wset, entries, rs), rset, g) == (in_fd_set(m, rset, g)
            || reported(entries, rs, POLLIN, g)),
        in_fd_set(fd_bits_set(m, rset, wset, entries, rs), wset, g) == (in_fd_set(m, wset, g)
            || reported(entries, rs, POLLOUT, g)),
    decreases entries.len(),
{
    if entries.len() > 0 {
        let n = entries.len() - 1;
        let rest = entries.drop_last();
        let (fd, ev) = entries[n];
        assert forall|i: int| 0 <= i < rest.len() implies 0 <= (#[trigger] rest[i]).0
            < FD_SETSIZE by {
            assert(rest[i] == entries[i]);
        }
        bits_are_the_reported(m, rset, wset, rest, rs, g);
        reported_step(entries, rs, POLLIN, g);
        reported_step(entries, rs, POLLOUT, g);
        let m0 = fd_bits_set(m, rset, wset, rest, rs);
        setting_a_bit(m0, rset, wset, fd as int, g);
        let m1 = if rs[n] & POLLIN != 0 && ev & POLLIN != 0 && rset != 0 {
            fd_bit_set(m0, rset, fd as int)
        } else {
            m0
        };
        setting_a_bit(m1, wset, rset, fd as int, g);
    }
}

/// A `select` that ends leaves in each set exactly the descriptors that it asked for
/// there and that are ready.
pub proof fn select_reports_the_ready(m: Seq<u8>, s: SelectionModel, g: int)
    requires
        sets_apart(m, s.rset, s.wset),
        0 <= g < FD_SETSIZE,
        forall|i: int| 0 <= i < s.entries.len() ==> 0 <= (#[trigger] s.entries[i]).0 < FD_SETSIZE,
    ensures
        ({
            let rs = revents_at(m, SELECT_SCRATCH as int, s.entries.len() as int);
            let after = select_reported(m, s);
            &&& in_fd_set(after, s.rset, g) == reported(s.entries, rs, POLLIN, g)
            &&& in_fd_set(after, s.wset, g) == reported(s.entries, rs, POLLOUT, g)
        }),
{
    let rs = revents_at(m, SELECT_SCRATCH as int, s.entries.len() as int);
    let m1 = fd_set_cleared(m, s.rset);
    let m2 = fd_set_cleared(m1, s.wset);
    clearing_a_set(m, s.rset, s.wset, g);
    clearing_a_set(m1, s.wset, s.rset, g);
    bits_are_the_reported(m2, s.rset, s.wset, s.entries, rs, g);
}

/// A poll that fails leaves the memory as it was.
pub proof fn failed_poll_writes_nothing(f: FdModel, m: Seq<u8>, a: [i64; 6])
    ensures
        ({
            let (r, after) = poll_after(f, m, a);
            r matches PollModel::Done(v) ==> v < 0 ==> after == m
        }),
{
}

/// Polling a descriptor that names nothing gives `POLLNVAL` and nothing else.
pub proof fn unknown_descriptor_is_invalid(f: FdModel, fd: int, events: i16)
    requires
        f.at(fd) is None,
    ensures
        revents(f, fd, events) == POLLNVAL,
{
}

/// A descriptor is reported ready for input or output only where that was asked for.
pub proof fn readiness_was_asked_for(f: FdModel, fd: int, events: i16)
    ensures
        revents(f, fd, events) & POLLIN != 0 ==> events & POLLIN != 0,
        revents(f, fd, events) & POLLOUT != 0 ==> events & POLLOUT != 0,
{
    assert(forall|x: i16|
        #![trigger (POLLOUT & x)]
        (POLLOUT & x) & POLLIN == 0 && ((POLLOUT & x) & POLLOUT != 0 ==> x & POLLOUT != 0))
        by (bit_vector);
    assert(forall|x: i16|
        #![trigger ((POLLIN | POLLOUT) & x)]
        (((POLLIN | POLLOUT) & x) & POLLIN != 0 ==> x & POLLIN != 0) && (((POLLIN | POLLOUT) & x)
            & POLLOUT != 0 ==> x & POLLOUT != 0)) by (bit_vector);
    assert(forall|x: i16, y: i16|
        #![trigger (x | y)]
        (x == 0 || x == POLLIN || x == POLLNVAL) && (y == 0 || y == POLLOUT || y == POLLERR || y
            == POLLNVAL) ==> ((x | y) & POLLIN != 0 ==> x == POLLIN) && ((x | y) & POLLOUT != 0
            ==> y == POLLOUT)) by (bit_vector);
    assert(POLLNVAL & POLLIN == 0 && POLLNVAL & POLLOUT == 0) by (bit_vector);
}

} // verus!
