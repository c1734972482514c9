//! Epoll sets: which descriptors are watched, and waiting for one to be ready.

use vstd::prelude::*;
use crate::bytes::le;
use crate::bytes::le_len;
use crate::bytes::le_round_trip;
use crate::bytes::pow256_values;
use crate::bytes::push_le;
use crate::bytes::read_le;
use crate::errno::EBADF;
use crate::errno::EEXIST;
use crate::errno::EFAULT;
use crate::errno::EINTR;
use crate::errno::EINVAL;
use crate::errno::ENOENT;
use crate::fd::entries_distinct;
use crate::fd::group_fd_objects;
use crate::fd::listening;
use crate::fd::lowest_free;
use crate::fd::EpollEntry;
use crate::fd::EpollInner;
use crate::fd::FdModel;
use crate::fd::FdTable;
use crate::fd::Pipe;
use crate::fd::Resource;
use crate::fd::SocketInner;
use crate::fd::SocketModel;
use crate::fd::WakeSource;
use crate::mem::check_range;
use crate::mem::guest_slice;
use crate::mem::guest_write;
use crate::mem::in_bounds;
use crate::mem::splice;
use crate::mem::window;
use crate::mem::word_at;
use crate::sys::file::GUEST_LIMIT;
use crate::sys::poll::read_timespec_ms;
use crate::sys::poll::timespec_ms;
use crate::sys::poll::WaitEvent;

verus! {

broadcast use {le_len, group_fd_objects};

pub const NR_EPOLL_CREATE1: u32 = 291;
pub const NR_EPOLL_CTL: u32 = 233;
pub const NR_EPOLL_WAIT: u32 = 232;
pub const NR_EPOLL_PWAIT: u32 = 281;

pub const EPOLL_CTL_ADD: i32 = 1;
pub const EPOLL_CTL_MOD: i32 = 3;
pub const EPOLL_CTL_DEL: i32 = 2;

pub const EPOLLIN: u32 = 0x001;
pub const EPOLLPRI: u32 = 0x002;
pub const EPOLLOUT: u32 = 0x004;
pub const EPOLLERR: u32 = 0x008;
pub const EPOLLHUP: u32 = 0x010;
pub const EPOLLET: u32 = 0x8000_0000;
pub const EPOLLONESHOT: u32 = 0x4000_0000;

pub const EPOLL_CLOEXEC: i32 = 0o2000000;

/// The size of a `struct epoll_event`: the events, then the caller's data.
pub const EPOLL_EVENT_SIZE: usize = 12;

/// The table with a new epoll set in it, under its lowest free descriptor.
pub open spec fn epoll_opened(f: FdModel, cloexec: bool) -> FdModel {
    let n = f.next_id;
    let fd = lowest_free(f.slots, 3);
    f.with_epoll(n, Seq::empty()).numbered().bind(fd, Resource::Epoll(n)).with_cloexec(fd, cloexec)
}

/// What `epoll_create1` does.
pub open spec fn epoll_create1_after(f: FdModel, a: [i64; 6]) -> (int, FdModel) {
    if (a[0] as i32) & !EPOLL_CLOEXEC != 0 {
        (-EINVAL, f)
    } else {
        (
            lowest_free(f.slots, 3) as int,
            epoll_opened(f, (a[0] as i32) & EPOLL_CLOEXEC != 0),
        )
    }
}

/// `epoll_create1(flags)`: a new epoll set. `EPOLL_CLOEXEC` is the only flag.
pub fn epoll_create1(fds: &mut FdTable, a: [i64; 6]) -> (r: i64)
    requires
        old(fds)@.wf(),
        old(fds)@.room(1),
    ensures
        (r as int, final(fds)@) == epoll_create1_after(old(fds)@, a),
        final(fds)@.wf(),
{
    let flags: i32 = a[0] as i32;
    if flags & !EPOLL_CLOEXEC != 0 {
        return -EINVAL;
    }
    let n: u64 = fds.add_epoll();
    let fd: u32 = fds.insert(Resource::Epoll(n));
    fds.set_cloexec(fd, flags & EPOLL_CLOEXEC != 0);
    fd as i64
}

/// Whether a registration of `fd` is among `s`.
pub open spec fn registered(s: Seq<EpollEntry>, fd: u32) -> bool {
    exists|i: int| 0 <= i < s.len() && (#[trigger] s[i]).fd == fd
}

/// Where the registration of `fd` stands.
pub open spec fn position(s: Seq<EpollEntry>, fd: u32) -> int {
    choose|i: int| 0 <= i < s.len() && (#[trigger] s[i]).fd == fd
}

proof fn position_is(s: Seq<EpollEntry>, fd: u32, i: int)
    requires
        entries_distinct(s),
        0 <= i < s.len(),
        s[i].fd == fd,
    ensures
        registered(s, fd),
        position(s, fd) == i,
{
    let j = position(s, fd);
    assert(0 <= j < s.len() && s[j].fd == fd);
    if j < i {
        assert(s[j].fd != s[i].fd);
    }
    if i < j {
        assert(s[i].fd != s[j].fd);
    }
}

/// What wakes a wait on the registration of `fd` in the set `n`: the socket's own
/// wake where the registration asks for input or output.
pub open spec fn wake_of(f: FdModel, n: u64, fd: u32, events: u32) -> WakeSource {
    if events & EPOLLIN != 0 {
        match f.at(fd as int) {
            Some(Resource::Socket(s)) => WakeSource::SocketRead(s),
            _ => WakeSource::Never,
        }
    } else if events & EPOLLOUT != 0 {
        match f.at(fd as int) {
            Some(Resource::Socket(s)) => WakeSource::SocketWrite(s),
            _ => WakeSource::Never,
        }
    } else {
        WakeSource::Epoll(n)
    }
}

/// The registration of `fd` in the set `n` that the `struct epoll_event` at `ptr`
/// asks for.
pub open spec fn entry_at(f: FdModel, m: Seq<u8>, n: u64, fd: u32, ptr: int) -> EpollEntry {
    let events = word_at(m, ptr, 4) as u32;
    EpollEntry { fd, events, data: word_at(m, ptr + 4, 8) as u64, wake: wake_of(f, n, fd, events) }
}

/// The registrations of the set `n` after `epoll_ctl`, or the error.
pub open spec fn ctl_result(
    f: FdModel,
    m: Seq<u8>,
    n: u64,
    op: i32,
    fd: u32,
    ptr: int,
) -> Result<Seq<EpollEntry>, int> {
    let s = f.epolls[n];
    let e = entry_at(f, m, n, fd, ptr);
    if op == EPOLL_CTL_ADD {
        if !in_bounds(m.len(), ptr, 12) {
            Err(-EFAULT)
        } else if registered(s, fd) {
            Err(-EEXIST)
        } else {
            Ok(s.push(e))
        }
    } else if op == EPOLL_CTL_MOD {
        if !in_bounds(m.len(), ptr, 12) {
            Err(-EFAULT)
        } else if !registered(s, fd) {
            Err(-ENOENT)
        } else {
            Ok(s.update(position(s, fd), e))
        }
    } else if op == EPOLL_CTL_DEL {
        if !registered(s, fd) {
            Err(-ENOENT)
        } else {
            Ok(s.remove(position(s, fd)))
        }
    } else {
        Err(-EINVAL)
    }
}

/// What `epoll_ctl` does.
pub open spec fn epoll_ctl_after(f: FdModel, m: Seq<u8>, a: [i64; 6]) -> (int, FdModel) {
    if !(0 <= a[0] <= u32::MAX) || !(0 <= a[2] <= u32::MAX) {
        (-EBADF, f)
    } else {
        match f.at(a[0] as int) {
            Some(Resource::Epoll(n)) => if f.at(a[2] as int) is None {
                (-EBADF, f)
            } else {
                match ctl_result(f, m, n, a[1] as i32, a[2] as u32, a[3] as int) {
                    Ok(s) => (0, f.with_epoll(n, s)),
                    Err(e) => (e, f),
                }
            },
            _ => (-EBADF, f),
        }
    }
}

fn find_entry(e: &EpollInner, fd: u32) -> (r: Option<usize>)
    requires
        entries_distinct(e@),
    ensures
        match r {
            Some(i) => registered(e@, fd) && i == position(e@, fd) && i < e@.len() && e@[i as int].fd
                == fd,
            None => !registered(e@, fd),
        },
{
    let n: usize = e.entries.len();
    let mut i: usize = 0;
    while i < n
        invariant
            i <= n,
            n == e@.len(),
            entries_distinct(e@),
            forall|j: int| 0 <= j < i ==> (#[trigger] e@[j]).fd != fd,
        decreases n - i,
    {
        if e.entries[i].fd == fd {
            proof {
                position_is(e@, fd, i as int);
            }
            return Some(i);
        }
        i = i + 1;
    }
    None
}

fn read_entry(fds: &FdTable, mem: &[u8], n: u64, fd: u32, ptr: i64) -> (r: Result<EpollEntry, i64>)
    ensures
        match r {
            Ok(e) => in_bounds(mem@.len(), ptr as int, 12) && e == entry_at(
                fds@,
                mem@,
                n,
                fd,
                ptr as int,
            ),
            Err(e) => !in_bounds(mem@.len(), ptr as int, 12) && e == -EFAULT,
        },
{
    let b: Vec<u8> = match guest_slice(mem, ptr, 12) {
        Ok(b) => b,
        Err(e) => {
            return Err(e);
        },
    };
    proof {
        pow256_values();
        assert(b@.subrange(0, 4) =~= window(mem@, ptr as int, 4));
        assert(b@.subrange(4, 12) =~= window(mem@, ptr + 4, 8));
    }
    let events: u32 = read_le(b.as_slice(), 0, 4) as u32;
    let data: u64 = read_le(b.as_slice(), 4, 8);
    let wake: WakeSource = if events & EPOLLIN != 0 {
        match fds.socket_at(fd) {
            Some(s) => WakeSource::SocketRead(s),
            None => WakeSource::Never,
        }
    } else if events & EPOLLOUT != 0 {
        match fds.socket_at(fd) {
            Some(s) => WakeSource::SocketWrite(s),
            None => WakeSource::Never,
        }
    } else {
        WakeSource::Epoll(n)
    };
    Ok(EpollEntry { fd, events, data, wake })
}

fn add_entry(fds: &mut FdTable, n: u64, e: EpollEntry)
    requires
        old(fds)@.wf(),
        old(fds)@.epolls.contains_key(n),
        !registered(old(fds)@.epolls[n], e.fd),
    ensures
        final(fds)@ == old(fds)@.with_epoll(n, old(fds)@.epolls[n].push(e)),
        final(fds)@.wf(),
{
    let ghost s = fds@.epolls[n];
    let mut ep: EpollInner = fds.take_epoll(n);
    ep.entries.push(e);
    proof {
        let t = s.push(e);
        assert forall|i: int, j: int| 0 <= i < j < t.len() implies (#[trigger] t[i]).fd != (
        #[trigger] t[j]).fd by {
            if j == s.len() {
                assert(s[i].fd != e.fd);
            }
        }
    }
    fds.put_epoll(n, ep);
}

fn change_entry(fds: &mut FdTable, n: u64, i: usize, e: EpollEntry)
    requires
        old(fds)@.wf(),
        old(fds)@.epolls.contains_key(n),
        i < old(fds)@.epolls[n].len(),
        old(fds)@.epolls[n][i as int].fd == e.fd,
    ensures
        final(fds)@ == old(fds)@.with_epoll(n, old(fds)@.epolls[n].update(i as int, e)),
        final(fds)@.wf(),
{
    let ghost s = fds@.epolls[n];
    let mut ep: EpollInner = fds.take_epoll(n);
    ep.entries.set(i, e);
    proof {
        let t = s.update(i as int, e);
        assert forall|k: int, j: int| 0 <= k < j < t.len() implies (#[trigger] t[k]).fd != (
        #[trigger] t[j]).fd by {
            assert(s[k].fd != s[j].fd);
        }
    }
    fds.put_epoll(n, ep);
}

fn drop_entry(fds: &mut FdTable, n: u64, i: usize)
    requires
        old(fds)@.wf(),
        old(fds)@.epolls.contains_key(n),
        i < old(fds)@.epolls[n].len(),
    ensures
        final(fds)@ == old(fds)@.with_epoll(n, old(fds)@.epolls[n].remove(i as int)),
        final(fds)@.wf(),
{
    let ghost s = fds@.epolls[n];
    let mut ep: EpollInner = fds.take_epoll(n);
    let _ = ep.entries.remove(i);
    proof {
        let t = s.remove(i as int);
        assert forall|k: int, j: int| 0 <= k < j < t.len() implies (#[trigger] t[k]).fd != (
        #[trigger] t[j]).fd by {
            let k0 = if k < i { k } else { k + 1 };
            let j0 = if j < i { j } else { j + 1 };
            assert(t[k] == s[k0]);
            assert(t[j] == s[j0]);
            assert(s[k0].fd != s[j0].fd);
        }
    }
    fds.put_epoll(n, ep);
}

/// `epoll_ctl(epfd, op, fd, event)`: register `fd`, change its registration or take
/// it back. Where the answer is zero the host wakes the waits on the set.
pub fn epoll_ctl(fds: &mut FdTable, mem: &[u8], a: [i64; 6]) -> (r: i64)
    requires
        old(fds)@.wf(),
    ensures
        r == epoll_ctl_after(old(fds)@, mem@, a).0,
        final(fds)@ == epoll_ctl_after(old(fds)@, mem@, a).1,
        final(fds)@.wf(),
{
    if a[0] < 0 || a[0] > 0xffff_ffff || a[2] < 0 || a[2] > 0xffff_ffff {
        return -EBADF;
    }
    let op: i32 = a[1] as i32;
    let fd: u32 = a[2] as u32;
    let n: u64 = match fds.lookup(a[0]) {
        Some(Resource::Epoll(n)) => n,
        _ => {
            return -EBADF;
        },
    };
    if !fds.contains(fd) {
        return -EBADF;
    }
    let found: Option<usize> = find_entry(fds.epoll(n), fd);
    if op == EPOLL_CTL_ADD || op == EPOLL_CTL_MOD {
        let e: EpollEntry = match read_entry(fds, mem, n, fd, a[3]) {
            Ok(e) => e,
            Err(e) => {
                return e;
            },
        };
        match found {
            Some(i) => {
                if op == EPOLL_CTL_ADD {
                    return -EEXIST;
                }
                change_entry(fds, n, i, e);
                0
            },
            None => {
                if op == EPOLL_CTL_MOD {
                    return -ENOENT;
                }
                add_entry(fds, n, e);
                0
            },
        }
    } else if op == EPOLL_CTL_DEL {
        match found {
            Some(i) => {
                drop_entry(fds, n, i);
                0
            },
            None => -ENOENT,
        }
    } else {
        -EINVAL
    }
}

/// What watching a socket returns.
pub open spec fn socket_epoll_revents(s: SocketModel, requested: u32) -> u32 {
    (if requested & EPOLLIN == 0 {
        0
    } else if s.stream || listening(s) {
        EPOLLIN
    } else {
        EPOLLERR
    }) | (if requested & EPOLLOUT == 0 {
        0
    } else if s.stream {
        EPOLLOUT
    } else {
        EPOLLERR
    })
}

/// What watching the descriptor `fd` for `requested` returns.
pub open spec fn epoll_revents(f: FdModel, fd: u32, requested: u32) -> u32 {
    let input = if requested & EPOLLIN != 0 {
        EPOLLIN
    } else {
        0
    };
    let output = if requested & EPOLLOUT != 0 {
        EPOLLOUT
    } else {
        0
    };
    match f.at(fd as int) {
        None => EPOLLERR | EPOLLHUP,
        Some(res) => match res {
            Resource::Socket(n) => socket_epoll_revents(f.sockets[n], requested),
            Resource::PipeRead(n) => if f.pipes[n].buf.len() > 0 || f.pipes[n].closed {
                input
            } else {
                0
            },
            Resource::Stdin(n) => if f.pipes[n].buf.len() > 0 || f.pipes[n].closed {
                input
            } else {
                0
            },
            Resource::PipeWrite(_) => output,
            Resource::Stdout(_) => output,
            Resource::Stderr(_) => output,
            Resource::File(_) => input | output,
            Resource::EventFd(_) => input,
            Resource::Epoll(_) => EPOLLERR,
        },
    }
}

fn socket_readiness(s: &SocketInner, requested: u32) -> (r: u32)
    ensures
        r == socket_epoll_revents(s@, requested),
{
    let input: u32 = if requested & EPOLLIN == 0 {
        0
    } else if s.stream || s.is_listening() {
        EPOLLIN
    } else {
        EPOLLERR
    };
    let output: u32 = if requested & EPOLLOUT == 0 {
        0
    } else if s.stream {
        EPOLLOUT
    } else {
        EPOLLERR
    };
    input | output
}

/// What watching the descriptor `fd` for `requested` returns.
pub fn compute_revents(fds: &FdTable, fd: u32, requested: u32) -> (r: u32)
    requires
        fds@.wf(),
    ensures
        r == epoll_revents(fds@, fd, requested),
{
    let input: u32 = if requested & EPOLLIN != 0 {
        EPOLLIN
    } else {
        0
    };
    let output: u32 = if requested & EPOLLOUT != 0 {
        EPOLLOUT
    } else {
        0
    };
    let res: Resource = match fds.get(fd) {
        Ok(r) => r,
        Err(_) => {
            return EPOLLERR | EPOLLHUP;
        },
    };
    match res {
        Resource::Socket(n) => socket_readiness(fds.socket(n), requested),
        Resource::PipeRead(n) => {
            let p: &Pipe = fds.pipe(n);
            if p.buf.len() > 0 || p.closed {
                input
            } else {
                0
            }
        },
        Resource::Stdin(n) => {
            let p: &Pipe = fds.pipe(n);
            if p.buf.len() > 0 || p.closed {
                input
            } else {
                0
            }
        },
        Resource::PipeWrite(_) => output,
        Resource::Stdout(_) => output,
        Resource::Stderr(_) => output,
        Resource::File(_) => input | output,
        Resource::EventFd(_) => input,
        Resource::Epoll(_) => EPOLLERR,
    }
}

/// The registrations that are ready, each with what it returns, in order.
pub open spec fn ready_entries(f: FdModel, s: Seq<EpollEntry>) -> Seq<(EpollEntry, u32)>
    decreases s.len(),
{
    if s.len() == 0 {
        Seq::empty()
    } else {
        let rest = ready_entries(f, s.drop_last());
        let e = s.last();
        let v = epoll_revents(f, e.fd, e.events);
        if v != 0 {
            rest.push((e, v))
        } else {
            rest
        }
    }
}

/// The registrations that are ready, each with what it returns.
pub fn snapshot_readiness(fds: &FdTable, entries: &Vec<EpollEntry>) -> (r: Vec<(EpollEntry, u32)>)
    requires
        fds@.wf(),
    ensures
        r@ == ready_entries(fds@, entries@),
{
    let n: usize = entries.len();
    let mut out: Vec<(EpollEntry, u32)> = Vec::new();
    let mut i: usize = 0;
    assert(entries@.take(0) =~= Seq::empty());
    assert(out@ =~= Seq::empty());
    while i < n
        invariant
            i <= n,
            n == entries@.len(),
            fds@.wf(),
            out@ == ready_entries(fds@, entries@.take(i as int)),
        decreases n - i,
    {
        assert(entries@.take(i + 1).drop_last() =~= entries@.take(i as int));
        let e: EpollEntry = entries[i];
        let v: u32 = compute_revents(fds, e.fd, e.events);
        if v != 0 {
            out.push((e, v));
        }
        i = i + 1;
    }
    assert(entries@.take(n as int) =~= entries@);
    out
}

/// The array of `struct epoll_event` for these registrations.
pub open spec fn events_image(ready: Seq<(EpollEntry, u32)>) -> Seq<u8>
    decreases ready.len(),
{
    if ready.len() == 0 {
        Seq::empty()
    } else {
        events_image(ready.drop_last()) + le(ready.last().1 as nat, 4) + le(
            ready.last().0.data as nat,
            8,
        )
    }
}

/// The first `max` of the registrations, or all where there are no more.
pub open spec fn first_events(ready: Seq<(EpollEntry, u32)>, max: int) -> Seq<
    (EpollEntry, u32),
> {
    if max < ready.len() {
        ready.take(max)
    } else {
        ready
    }
}

/// A wait that ends with these registrations: how many fit into the array at `ptr`,
/// and the memory with those in it.
pub open spec fn events_packed(
    m: Seq<u8>,
    ptr: int,
    max: int,
    ready: Seq<(EpollEntry, u32)>,
) -> (int, Seq<u8>) {
    let first = first_events(ready, max);
    if in_bounds(m.len(), ptr, first.len() * 12int) {
        (first.len() as int, splice(m, ptr, events_image(first)))
    } else {
        (-EFAULT, m)
    }
}

pub proof fn events_image_len(ready: Seq<(EpollEntry, u32)>)
    ensures
        events_image(ready).len() == 12 * ready.len(),
    decreases ready.len(),
{
    if ready.len() > 0 {
        events_image_len(ready.drop_last());
    }
}

/// Put the ready registrations into the array at `events_ptr`, as many as fit.
pub fn pack_events(
    mem: &mut [u8],
    events_ptr: i64,
    maxevents: i64,
    ready: &Vec<(EpollEntry, u32)>,
) -> (r: i64)
    requires
        maxevents >= 0,
        old(mem)@.len() <= GUEST_LIMIT,
    ensures
        (r as int, final(mem)@) == events_packed(
            old(mem)@,
            events_ptr as int,
            maxevents as int,
            ready@,
        ),
        final(mem)@.len() == old(mem)@.len(),
{
    let have: usize = ready.len();
    let count: usize = if (maxevents as u64) < have as u64 {
        maxevents as usize
    } else {
        have
    };
    let ghost first = first_events(ready@, maxevents as int);
    assert(first =~= ready@.take(count as int));
    if count as u64 > GUEST_LIMIT {
        return -EFAULT;
    }
    match check_range(mem.len(), events_ptr, count as i64 * 12) {
        Ok(_) => {},
        Err(e) => {
            return e;
        },
    }
    let mut b: Vec<u8> = Vec::new();
    let mut i: usize = 0;
    assert(ready@.take(0) =~= Seq::empty());
    assert(b@ =~= Seq::empty());
    while i < count
        invariant
            i <= count,
            count <= ready@.len(),
            b@ == events_image(ready@.take(i as int)),
        decreases count - i,
    {
        assert(ready@.take(i + 1).drop_last() =~= ready@.take(i as int));
        let (e, v): (EpollEntry, u32) = ready[i];
        push_le(&mut b, v as u64, 4);
        push_le(&mut b, e.data, 8);
        i = i + 1;
        assert(b@ =~= events_image(ready@.take(i as int)));
    }
    proof {
        events_image_len(first);
    }
    let _ = guest_write(mem, events_ptr, b.as_slice());
    count as i64
}

/// An `epoll_wait` that waits.
pub struct EpollWait {
    pub ptr: i64,
    pub max: i64,
    /// The registrations when the call was made.
    pub entries: Vec<EpollEntry>,
    pub wakes: Vec<WakeSource>,
    /// For how many milliseconds; `None` for as long as it takes.
    pub timeout: Option<i64>,
}

/// What is left to do of an `epoll_wait`.
pub enum EpollStep {
    Done(i64),
    /// Wait, and go on with `epoll_woken`.
    Wait(EpollWait),
}

pub struct EpollWaitModel {
    pub ptr: int,
    pub max: int,
    pub entries: Seq<EpollEntry>,
    pub wakes: Seq<WakeSource>,
    pub timeout: Option<i64>,
}

pub enum EpollModel {
    Done(int),
    Wait(EpollWaitModel),
}

impl View for EpollWait {
    type V = EpollWaitModel;

    open spec fn view(&self) -> EpollWaitModel {
        EpollWaitModel {
            ptr: self.ptr as int,
            max: self.max as int,
            entries: self.entries@,
            wakes: self.wakes@,
            timeout: self.timeout,
        }
    }
}

impl View for EpollStep {
    type V = EpollModel;

    open spec fn view(&self) -> EpollModel {
        match self {
            EpollStep::Done(r) => EpollModel::Done(*r as int),
            EpollStep::Wait(w) => EpollModel::Wait(w@),
        }
    }
}

/// The wakes of the registrations, then that of the set `n` itself.
pub open spec fn epoll_wakes(s: Seq<EpollEntry>, n: u64) -> Seq<WakeSource> {
    Seq::new(
        s.len() + 1,
        |i: int|
            if i < s.len() {
                s[i].wake
            } else {
                WakeSource::Epoll(n)
            },
    )
}

/// The result of ending a wait.
pub open spec fn epoll_ends(p: (int, Seq<u8>)) -> (EpollModel, Seq<u8>) {
    (EpollModel::Done(p.0), p.1)
}

/// What `epoll_wait` on the set that `epfd` names does. With no registration it only
/// lets the time pass.
pub open spec fn epoll_wait_call(
    f: FdModel,
    m: Seq<u8>,
    epfd: int,
    ptr: int,
    max: int,
    timeout_ms: i64,
) -> (EpollModel, Seq<u8>) {
    if !(0 <= epfd <= u32::MAX) {
        (EpollModel::Done(-EBADF), m)
    } else if max <= 0 {
        (EpollModel::Done(-EINVAL), m)
    } else if !in_bounds(m.len(), ptr, max * 12) {
        (EpollModel::Done(-EFAULT), m)
    } else {
        match f.at(epfd) {
            Some(Resource::Epoll(n)) => {
                let s = f.epolls[n];
                let ready = ready_entries(f, s);
                if s.len() == 0 && timeout_ms <= 0 {
                    (EpollModel::Done(0), m)
                } else if ready.len() > 0 {
                    epoll_ends(events_packed(m, ptr, max, ready))
                } else {
                    (
                        EpollModel::Wait(
                            EpollWaitModel {
                                ptr,
                                max,
                                entries: s,
                                wakes: if s.len() == 0 {
                                    Seq::empty()
                                } else {
                                    epoll_wakes(s, n)
                                },
                                timeout: if timeout_ms < 0 {
                                    None
                                } else {
                                    Some(timeout_ms)
                                },
                            },
                        ),
                        m,
                    )
                }
            },
            _ => (EpollModel::Done(-EBADF), m),
        }
    }
}

/// What `epoll_wait` does.
pub open spec fn epoll_wait_after(f: FdModel, m: Seq<u8>, a: [i64; 6]) -> (EpollModel, Seq<u8>) {
    epoll_wait_call(f, m, a[0] as int, a[1] as int, a[2] as int, a[3])
}

/// What an `epoll_wait` does when its wait ends: it looks once more at the
/// registrations that were there when it was made.
pub open spec fn epoll_after_wait(
    f: FdModel,
    m: Seq<u8>,
    w: EpollWaitModel,
    e: WaitEvent,
) -> (EpollModel, Seq<u8>) {
    match e {
        WaitEvent::Interrupted => (EpollModel::Done(-EINTR), m),
        _ => epoll_ends(events_packed(m, w.ptr, w.max, ready_entries(f, w.entries))),
    }
}

fn collect_wakes(entries: &Vec<EpollEntry>, n: u64) -> (r: Vec<WakeSource>)
    ensures
        r@ == epoll_wakes(entries@, n),
{
    let len: usize = entries.len();
    let mut out: Vec<WakeSource> = Vec::new();
    let mut i: usize = 0;
    assert(out@ =~= epoll_wakes(entries@, n).take(0));
    while i < len
        invariant
            i <= len,
            len == entries@.len(),
            out@ == epoll_wakes(entries@, n).take(i as int),
        decreases len - i,
    {
        out.push(entries[i].wake);
        i = i + 1;
        assert(out@ =~= epoll_wakes(entries@, n).take(i as int));
    }
    out.push(WakeSource::Epoll(n));
    assert(out@ =~= epoll_wakes(entries@, n));
    out
}

fn copy_entries(e: &EpollInner) -> (r: Vec<EpollEntry>)
    ensures
        r@ == e@,
{
    let len: usize = e.entries.len();
    let mut out: Vec<EpollEntry> = Vec::new();
    let mut i: usize = 0;
    assert(out@ =~= e@.take(0));
    while i < len
        invariant
            i <= len,
            len == e@.len(),
            out@ == e@.take(i as int),
        decreases len - i,
    {
        out.push(e.entries[i]);
        i = i + 1;
        assert(out@ =~= e@.take(i as int));
    }
    assert(out@ =~= e@);
    out
}

fn epoll_wait_on(
    fds: &FdTable,
    mem: &mut [u8],
    epfd: i64,
    ptr: i64,
    max: i64,
    timeout_ms: i64,
) -> (r: EpollStep)
    requires
        fds@.wf(),
        old(mem)@.len() <= GUEST_LIMIT,
    ensures
        (r@, final(mem)@) == epoll_wait_call(
            fds@,
            old(mem)@,
            epfd as int,
            ptr as int,
            max as int,
            timeout_ms,
        ),
        final(mem)@.len() == old(mem)@.len(),
{
    if epfd < 0 || epfd > 0xffff_ffff {
        return EpollStep::Done(-EBADF);
    }
    if max <= 0 {
        return EpollStep::Done(-EINVAL);
    }
    if max as u64 > GUEST_LIMIT {
        return EpollStep::Done(-EFAULT);
    }
    match check_range(mem.len(), ptr, max * 12) {
        Ok(_) => {},
        Err(e) => {
            return EpollStep::Done(e);
        },
    }
    let n: u64 = match fds.lookup(epfd) {
        Some(Resource::Epoll(n)) => n,
        _ => {
            return EpollStep::Done(-EBADF);
        },
    };
    let entries: Vec<EpollEntry> = copy_entries(fds.epoll(n));
    let none: bool = entries.len() == 0;
    if none && timeout_ms <= 0 {
        return EpollStep::Done(0);
    }
    let ready: Vec<(EpollEntry, u32)> = snapshot_readiness(fds, &entries);
    if ready.len() > 0 {
        return EpollStep::Done(pack_events(mem, ptr, max, &ready));
    }
    let timeout: Option<i64> = if timeout_ms < 0 {
        None
    } else {
        Some(timeout_ms)
    };
    let wakes: Vec<WakeSource> = if none {
        Vec::new()
    } else {
        collect_wakes(&entries, n)
    };
    assert(none ==> wakes@ =~= Seq::<WakeSource>::empty());
    EpollStep::Wait(EpollWait { ptr, max, entries, wakes, timeout })
}

/// `epoll_wait(epfd, events, maxevents, timeout_ms)`. The answer is the number of
/// registrations that are ready, each with its events and data in the array.
pub fn epoll_wait(fds: &FdTable, mem: &mut [u8], a: [i64; 6]) -> (r: EpollStep)
    requires
        fds@.wf(),
        old(mem)@.len() <= GUEST_LIMIT,
    ensures
        (r@, final(mem)@) == epoll_wait_after(fds@, old(mem)@, a),
        r@ matches EpollModel::Wait(w) ==> w.max >= 0,
        final(mem)@.len() == old(mem)@.len(),
{
    epoll_wait_on(fds, mem, a[0], a[1], a[2], a[3])
}

/// Go on with an `epoll_wait` whose wait has ended.
pub fn epoll_woken(fds: &FdTable, mem: &mut [u8], w: &EpollWait, e: WaitEvent) -> (r: i64)
    requires
        fds@.wf(),
        w@.max >= 0,
        old(mem)@.len() <= GUEST_LIMIT,
    ensures
        (EpollModel::Done(r as int), final(mem)@) == epoll_after_wait(fds@, old(mem)@, w@, e),
        final(mem)@.len() == old(mem)@.len(),
{
    match e {
        WaitEvent::Interrupted => -EINTR,
        _ => {
            let ready: Vec<(EpollEntry, u32)> = snapshot_readiness(fds, &w.entries);
            pack_events(mem, w.ptr, w.max, &ready)
        },
    }
}

/// What `epoll_pwait` does.
pub open spec fn epoll_pwait_after(f: FdModel, m: Seq<u8>, a: [i64; 6]) -> (EpollModel, Seq<u8>) {
    if !(0 <= a[0] <= u32::MAX) {
        (EpollModel::Done(-EBADF), m)
    } else if a[2] <= 0 {
        (EpollModel::Done(-EINVAL), m)
    } else {
        match timespec_ms(m, a[3] as int) {
            Err(e) => (EpollModel::Done(e as int), m),
            Ok(t) => epoll_wait_call(f, m, a[0] as int, a[1] as int, a[2] as int, t),
        }
    }
}

/// `epoll_pwait(epfd, events, maxevents, timespec, ..)`: as `epoll_wait`, with the
/// timeout in a `struct timespec`. The signal mask has no effect.
pub fn epoll_pwait(fds: &FdTable, mem: &mut [u8], a: [i64; 6]) -> (r: EpollStep)
    requires
        fds@.wf(),
        old(mem)@.len() <= GUEST_LIMIT,
    ensures
        (r@, final(mem)@) == epoll_pwait_after(fds@, old(mem)@, a),
        r@ matches EpollModel::Wait(w) ==> w.max >= 0,
        final(mem)@.len() == old(mem)@.len(),
{
    if a[0] < 0 || a[0] > 0xffff_ffff {
        return EpollStep::Done(-EBADF);
    }
    if a[2] <= 0 {
        return EpollStep::Done(-EINVAL);
    }
    match read_timespec_ms(mem, a[3]) {
        Err(e) => EpollStep::Done(e),
        Ok(t) => epoll_wait_on(fds, mem, a[0], a[1], a[2], t),
    }
}

/// After a registration was taken back, the descriptor is not registered: another
/// attempt finds nothing, and it can be registered anew.
pub proof fn deleted_is_gone(f: FdModel, m: Seq<u8>, n: u64, fd: u32, ptr: int)
    requires
        entries_distinct(f.epolls[n]),
    ensures
        ctl_result(f, m, n, EPOLL_CTL_DEL, fd, ptr) matches Ok(s) ==> {
            let g = f.with_epoll(n, s);
            &&& !registered(s, fd)
            &&& ctl_result(g, m, n, EPOLL_CTL_DEL, fd, ptr) == Err::<Seq<EpollEntry>, int>(
                -ENOENT,
            )
            &&& in_bounds(m.len(), ptr, 12) ==> ctl_result(g, m, n, EPOLL_CTL_ADD, fd, ptr) is Ok
        },
{
    let s = f.epolls[n];
    if registered(s, fd) {
        let i = position(s, fd);
        let t = s.remove(i);
        assert forall|j: int| 0 <= j < t.len() implies (#[trigger] t[j]).fd != fd by {
            if j < i {
                assert(t[j] == s[j]);
                assert(s[j].fd != s[i].fd);
            } else {
                assert(t[j] == s[j + 1]);
                assert(s[i].fd != s[j + 1].fd);
            }
        }
    }
}

/// After a registration was made or changed, the descriptor is registered with the
/// events and data that were passed; the registrations of others stay.
pub proof fn registration_is_kept(
    f: FdModel,
    m: Seq<u8>,
    n: u64,
    op: i32,
    fd: u32,
    ptr: int,
    other: EpollEntry,
)
    requires
        entries_distinct(f.epolls[n]),
        op == EPOLL_CTL_ADD || op == EPOLL_CTL_MOD,
        other.fd != fd,
    ensures
        ctl_result(f, m, n, op, fd, ptr) matches Ok(s) ==> {
            &&& s.contains(entry_at(f, m, n, fd, ptr))
            &&& f.epolls[n].contains(other) ==> s.contains(other)
        },
{
    let s = f.epolls[n];
    let e = entry_at(f, m, n, fd, ptr);
    if let Ok(t) = ctl_result(f, m, n, op, fd, ptr) {
        if op == EPOLL_CTL_ADD {
            assert(t[s.len() as int] == e);
        } else {
            assert(t[position(s, fd)] == e);
        }
        if s.contains(other) {
            let i = choose|i: int| 0 <= i < s.len() && s[i] == other;
            assert(t[i] == other);
        }
    }
}

/// The data word that a registration was made with comes back with its events: the
/// `i`-th `struct epoll_event` that a wait leaves holds what the `i`-th ready
/// registration returns, and its data.
pub proof fn data_comes_back(
    m: Seq<u8>,
    ptr: int,
    max: int,
    ready: Seq<(EpollEntry, u32)>,
    i: int,
)
    requires
        in_bounds(m.len(), ptr, first_events(ready, max).len() * 12int),
        0 <= i < first_events(ready, max).len(),
        max >= 0,
    ensures
        ({
            let after = events_packed(m, ptr, max, ready).1;
            &&& word_at(after, ptr + 12 * i, 4) == ready[i].1
            &&& word_at(after, ptr + 12 * i + 4, 8) == ready[i].0.data
        }),
{
    let first = first_events(ready, max);
    let after = events_packed(m, ptr, max, ready).1;
    events_image_len(first);
    image_slot(first, i);
    pow256_values();
    le_round_trip(ready[i].1 as nat, 4);
    le_round_trip(ready[i].0.data as nat, 8);
    let img = events_image(first);
    assert(window(after, ptr + 12 * i, 4) =~= img.subrange(12 * i, 12 * i + 4));
    assert(window(after, ptr + 12 * i + 4, 8) =~= img.subrange(12 * i + 4, 12 * i + 12));
}

proof fn image_slot(ready: Seq<(EpollEntry, u32)>, i: int)
    requires
        0 <= i < ready.len(),
    ensures
        events_image(ready).subrange(12 * i, 12 * i + 4) == le(ready[i].1 as nat, 4),
        events_image(ready).subrange(12 * i + 4, 12 * i + 12) == le(ready[i].0.data as nat, 8),
    decreases ready.len(),
{
    let rest = ready.drop_last();
    let img = events_image(ready);
    events_image_len(ready);
    events_image_len(rest);
    if i < rest.len() {
        image_slot(rest, i);
        assert(img.subrange(12 * i, 12 * i + 4) =~= events_image(rest).subrange(
            12 * i,
            12 * i + 4,
        ));
        assert(img.subrange(12 * i + 4, 12 * i + 12) =~= events_image(rest).subrange(
            12 * i + 4,
            12 * i + 12,
        ));
    } else {
        assert(img.subrange(12 * i, 12 * i + 4) =~= le(ready[i].1 as nat, 4));
        assert(img.subrange(12 * i + 4, 12 * i + 12) =~= le(ready[i].0.data as nat, 8));
    }
}

} // verus!
