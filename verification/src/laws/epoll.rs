//! Epoll sets.

use vstd::prelude::*;
use crate::bytes::le_len;
use crate::errno::EBADF;
use crate::errno::EEXIST;
use crate::errno::EFAULT;
use crate::errno::EINTR;
use crate::errno::EINVAL;
use crate::errno::ENOENT;
use crate::fd::a_number_is_free;
use crate::fd::entries_distinct;
use crate::fd::EpollEntry;
use crate::fd::FdModel;
use crate::fd::Resource;
use crate::fd::WakeSource;
use crate::mem::in_bounds;
use crate::mem::word_at;
use crate::sys::epoll::data_comes_back;
use crate::sys::epoll::epoll_after_wait;
use crate::sys::epoll::epoll_ctl_after;
use crate::sys::epoll::epoll_opened;
use crate::sys::epoll::epoll_pwait_after;
use crate::sys::epoll::epoll_revents;
use crate::sys::epoll::epoll_wait_after;
use crate::sys::epoll::events_image_len;
use crate::sys::epoll::first_events;
use crate::sys::epoll::ready_entries;
use crate::sys::epoll::EpollModel;
use crate::sys::epoll::EpollWaitModel;
use crate::sys::poll::WaitEvent;

verus! {

broadcast use le_len;

/// The bits 1 and 4 of a mask, each on its own.
proof fn masks(x: u32)
    ensures
        (if x & 1 != 0 {
            1u32
        } else {
            0u32
        }) == x & 1,
        (if x & 4 != 0 {
            4u32
        } else {
            0u32
        }) == x & 4,
        (x & 1) | (x & 4) == x & 5,
        (x & 1) | 8 != 0,
        8u32 | (x & 4) != 0,
        8u32 | 8u32 == 8,
        8u32 | 0x10u32 == 0x18,
        x | 0 == x,
        0 | x == x,
{
    assert((if x & 1 != 0 {
        1u32
    } else {
        0u32
    }) == x & 1) by (bit_vector);
    assert((if x & 4 != 0 {
        4u32
    } else {
        0u32
    }) == x & 4) by (bit_vector);
    assert((x & 1) | (x & 4) == x & 5 && (x & 1) | 8 != 0 && 8u32 | (x & 4) != 0 && 8u32 | 8u32 == 8
        && 8u32 | 0x10u32 == 0x18 && x | 0 == x && 0 | x == x) by (bit_vector);
}

/// A connected socket is ready for all that it was asked for: reading (1) and writing
/// (4). A listening one without a connection is ready for reading; asking it for
/// writing, or asking a socket that neither listens nor is connected for either, gives
/// an error (8).
pub proof fn connected_sockets_are_ready(f: FdModel, fd: u32, n: u64, asked: u32)
    requires
        f.at(fd as int) == Some(Resource::Socket(n)),
    ensures
        ({
            let s = f.sockets[n];
            let listens = s.bound is Some && s.listen_backlog is Some;
            let v = epoll_revents(f, fd, asked);
            &&& s.stream ==> v == asked & 5
            &&& s.stream && asked & 1 != 0 ==> v & 1 != 0
            &&& s.stream && asked & 4 != 0 ==> v & 4 != 0
            &&& !s.stream && asked & 5 == 0 ==> v == 0
            &&& !s.stream && listens && asked & 5 == 1 ==> v == 1
            &&& !s.stream && listens && asked & 5 == 4 ==> v == 8
            &&& !s.stream && listens && asked & 5 == 5 ==> v == 9
            &&& !s.stream && !listens && asked & 5 != 0 ==> v == 8
        }),
{
    masks(asked);
    assert((asked & 5 == 0 ==> asked & 1 == 0 && asked & 4 == 0) && (asked & 5 == 1 ==> asked & 1 != 0
        && asked & 4 == 0) && (asked & 5 == 4 ==> asked & 1 == 0 && asked & 4 != 0) && (asked & 5
        == 5 ==> asked & 1 != 0 && asked & 4 != 0) && (asked & 5 != 0 ==> asked & 1 != 0 || asked
        & 4 != 0)) by (bit_vector);
    assert((asked & 5) & 1 == asked & 1 && (asked & 5) & 4 == asked & 4 && 1u32 | 8u32 == 9
        && 0u32 | 0u32 == 0 && 8u32 | 0u32 == 8 && 0u32 | 8u32 == 8 && 8u32 | 8u32 == 8
        && 1u32 | 0u32 == 1) by (bit_vector);
}

/// What the other descriptors are ready for: the reading end of a pipe for reading once
/// it holds bytes or is closed, its writing end for writing, a file for both, an event
/// counter for reading. A descriptor that names nothing reports an error and a hang-up,
/// another epoll set an error.
pub proof fn other_descriptors_are_ready(f: FdModel, fd: u32, asked: u32)
    ensures
        ({
            let v = epoll_revents(f, fd, asked);
            match f.at(fd as int) {
                None => v == 0x18,
                Some(Resource::PipeRead(n)) | Some(Resource::Stdin(n)) => v == (if f.pipes[n].closed
                    || f.pipes[n].buf.len() > 0 {
                    asked & 1
                } else {
                    0
                }),
                Some(Resource::PipeWrite(_)) | Some(Resource::Stdout(_)) | Some(
                    Resource::Stderr(_),
                ) => v == asked & 4,
                Some(Resource::File(_)) => v == asked & 5,
                Some(Resource::EventFd(_)) => v == asked & 1,
                Some(Resource::Epoll(_)) => v == 8,
                Some(Resource::Socket(_)) => true,
            }
        }),
{
    masks(asked);
}

/// Among the ready registrations are exactly those that return something, each with
/// what it returns.
proof fn ready_entries_are(f: FdModel, s: Seq<EpollEntry>)
    ensures
        ready_entries(f, s).len() <= s.len(),
        forall|j: int|
            0 <= j < ready_entries(f, s).len() ==> {
                let (e, v) = #[trigger] ready_entries(f, s)[j];
                s.contains(e) && v == epoll_revents(f, e.fd, e.events) && v != 0
            },
        forall|i: int|
            0 <= i < s.len() && epoll_revents(f, (#[trigger] s[i]).fd, s[i].events) != 0
                ==> ready_entries(f, s).contains((s[i], epoll_revents(f, s[i].fd, s[i].events))),
    decreases s.len(),
{
    if s.len() > 0 {
        let t = s.drop_last();
        ready_entries_are(f, t);
        let r = ready_entries(f, s);
        let q = ready_entries(f, t);
        assert forall|j: int| 0 <= j < r.len() implies {
            let (e, v) = #[trigger] r[j];
            s.contains(e) && v == epoll_revents(f, e.fd, e.events) && v != 0
        } by {
            if j < q.len() {
                assert(r[j] == q[j]);
                let e = q[j].0;
                let k = choose|k: int| 0 <= k < t.len() && t[k] == e;
                assert(s[k] == e);
            } else {
                assert(r[j].0 == s[s.len() - 1]);
            }
        }
        assert forall|i: int|
            0 <= i < s.len() && epoll_revents(f, (#[trigger] s[i]).fd, s[i].events)
                != 0 implies r.contains((s[i], epoll_revents(f, s[i].fd, s[i].events))) by {
            let x = (s[i], epoll_revents(f, s[i].fd, s[i].events));
            if i < t.len() {
                assert(t[i] == s[i]);
                assert(q.contains(x));
                let k = choose|k: int| 0 <= k < q.len() && q[k] == x;
                assert(r[k] == x);
            } else {
                assert(r[r.len() - 1] == x);
            }
        }
    }
}

/// Whether the `j`-th `struct epoll_event` at `ptr` holds what the registration `e`
/// returns, and its data.
pub open spec fn told_at(f: FdModel, m: Seq<u8>, ptr: int, j: int, e: EpollEntry) -> bool {
    &&& word_at(m, ptr + 12 * j, 4) == epoll_revents(f, e.fd, e.events)
    &&& word_at(m, ptr + 12 * j + 4, 8) == e.data
}

/// Whether the `j`-th `struct epoll_event` at `ptr` tells of a registration in `s` that
/// is ready.
pub open spec fn tells(f: FdModel, m: Seq<u8>, ptr: int, j: int, s: Seq<EpollEntry>) -> bool {
    exists|g: EpollEntry|
        s.contains(g) && epoll_revents(f, g.fd, g.events) != 0 && #[trigger] told_at(f, m, ptr, j, g)
}

/// A registration that is ready ends a wait at once: the answer is positive, each record
/// up to it tells of a registration that is ready, and where there was room for more each
/// ready registration is told of. Nothing else in the memory changes.
pub proof fn ready_registrations_are_told(
    f: FdModel,
    m: Seq<u8>,
    a: [i64; 6],
    n: u64,
    e: EpollEntry,
)
    requires
        f.at(a[0] as int) == Some(Resource::Epoll(n)),
        a[2] > 0,
        in_bounds(m.len(), a[1] as int, a[2] * 12),
        f.epolls[n].contains(e),
        epoll_revents(f, e.fd, e.events) != 0,
    ensures
        ({
            let (step, after) = epoll_wait_after(f, m, a);
            &&& step matches EpollModel::Done(r) && {
                &&& 1 <= r <= a[2]
                &&& r <= f.epolls[n].len()
                &&& forall|j: int|
                    0 <= j < r ==> #[trigger] tells(f, after, a[1] as int, j, f.epolls[n])
                &&& r < a[2] ==> exists|j: int|
                    0 <= j < r && #[trigger] told_at(f, after, a[1] as int, j, e)
                &&& after.len() == m.len()
                &&& forall|k: int|
                    0 <= k < m.len() && !(a[1] <= k < a[1] + 12 * r) ==> after[k] == m[k]
            }
        }),
{
    let s = f.epolls[n];
    let ptr = a[1] as int;
    let max = a[2] as int;
    let ready = ready_entries(f, s);
    ready_entries_are(f, s);
    let i = choose|i: int| 0 <= i < s.len() && s[i] == e;
    let x = (e, epoll_revents(f, e.fd, e.events));
    assert(s[i] == e);
    assert(ready.contains(x));
    let first = first_events(ready, max);
    let after = epoll_wait_after(f, m, a).1;
    events_image_len(first);
    let r = first.len() as int;
    assert forall|j: int| 0 <= j < r implies #[trigger] tells(f, after, ptr, j, s) by {
        data_comes_back(m, ptr, max, ready, j);
        let (g, v) = ready[j];
        assert(told_at(f, after, ptr, j, g));
    }
    if r < max {
        let k = choose|k: int| 0 <= k < ready.len() && ready[k] == x;
        data_comes_back(m, ptr, max, ready, k);
        assert(told_at(f, after, ptr, k, e));
    }
}

/// Where no registration is ready a wait lasts: for the milliseconds it was given, or
/// for ever where they are negative. A set without registrations does not wait without a
/// time to wait for. The memory stays as it is.
pub proof fn a_wait_for_nothing_lasts(f: FdModel, m: Seq<u8>, a: [i64; 6], n: u64)
    requires
        f.at(a[0] as int) == Some(Resource::Epoll(n)),
        a[2] > 0,
        in_bounds(m.len(), a[1] as int, a[2] * 12),
        forall|i: int|
            0 <= i < f.epolls[n].len() ==> epoll_revents(
                f,
                (#[trigger] f.epolls[n][i]).fd,
                f.epolls[n][i].events,
            ) == 0,
    ensures
        ({
            let (step, after) = epoll_wait_after(f, m, a);
            &&& after == m
            &&& f.epolls[n].len() == 0 && a[3] <= 0 ==> step == EpollModel::Done(0)
            &&& f.epolls[n].len() > 0 || a[3] > 0 ==> (step matches EpollModel::Wait(w) && {
                &&& w.entries == f.epolls[n]
                &&& w.ptr == a[1] && w.max == a[2]
                &&& a[3] < 0 ==> w.timeout is None
                &&& a[3] >= 0 ==> w.timeout == Some(a[3])
                &&& f.epolls[n].len() > 0 ==> w.wakes.contains(WakeSource::Epoll(n))
                &&& forall|i: int|
                    0 <= i < f.epolls[n].len() ==> w.wakes.contains(
                        (#[trigger] f.epolls[n][i]).wake,
                    )
            })
        }),
{
    let s = f.epolls[n];
    ready_entries_are(f, s);
    let ready = ready_entries(f, s);
    if ready.len() > 0 {
        let e = ready[0].0;
        let k = choose|k: int| 0 <= k < s.len() && s[k] == e;
        assert(epoll_revents(f, s[k].fd, s[k].events) == 0);
    }
    if let EpollModel::Wait(w) = epoll_wait_after(f, m, a).0 {
        if s.len() > 0 {
            assert(w.wakes[s.len() as int] == WakeSource::Epoll(n));
        }
        assert forall|i: int| 0 <= i < s.len() implies w.wakes.contains(
            (#[trigger] f.epolls[n][i]).wake,
        ) by {
            assert(w.wakes[i] == s[i].wake);
        }
    }
}

/// A wait that ends looks once more: its answer is the number of those of its
/// registrations that are ready then, as many as there is room for. Only a signal ends it
/// with an error.
pub proof fn an_ended_wait_looks_again(
    f: FdModel,
    m: Seq<u8>,
    w: EpollWaitModel,
    event: WaitEvent,
    e: EpollEntry,
)
    requires
        w.max > 0,
        in_bounds(m.len(), w.ptr, w.max * 12),
    ensures
        ({
            let (step, after) = epoll_after_wait(f, m, w, event);
            &&& event == WaitEvent::Interrupted ==> step == EpollModel::Done(-EINTR) && after == m
            &&& event != WaitEvent::Interrupted ==> (step matches EpollModel::Done(r) && {
                &&& 0 <= r <= w.max
                &&& (w.entries.contains(e) && epoll_revents(f, e.fd, e.events) != 0 ==> {
                    &&& r >= 1
                    &&& r < w.max ==> exists|j: int|
                        0 <= j < r && #[trigger] told_at(f, after, w.ptr, j, e)
                })
                &&& forall|j: int|
                    0 <= j < r ==> #[trigger] tells(f, after, w.ptr, j, w.entries)
            })
        }),
{
    let s = w.entries;
    let ready = ready_entries(f, s);
    ready_entries_are(f, s);
    let first = first_events(ready, w.max);
    let (step, after) = epoll_after_wait(f, m, w, event);
    if event != WaitEvent::Interrupted {
        events_image_len(first);
        let r = first.len() as int;
        assert forall|j: int| 0 <= j < r implies #[trigger] tells(
            f,
            after,
            w.ptr,
            j,
            w.entries,
        ) by {
            data_comes_back(m, w.ptr, w.max, ready, j);
            let (g, v) = ready[j];
            assert(told_at(f, after, w.ptr, j, g));
        }
        if s.contains(e) && epoll_revents(f, e.fd, e.events) != 0 {
            let i = choose|i: int| 0 <= i < s.len() && s[i] == e;
            let x = (e, epoll_revents(f, e.fd, e.events));
            assert(s[i] == e);
            assert(ready.contains(x));
            let k = choose|k: int| 0 <= k < ready.len() && ready[k] == x;
            if r < w.max {
                data_comes_back(m, w.ptr, w.max, ready, k);
                assert(told_at(f, after, w.ptr, k, e));
            }
        }
    }
}

/// Waiting is refused where the descriptor is no epoll set, where there is room for no
/// record, and where the records do not lie in the memory. Nothing is written then.
pub proof fn a_wait_is_refused(f: FdModel, m: Seq<u8>, a: [i64; 6])
    ensures
        ({
            let (step, after) = epoll_wait_after(f, m, a);
            let is_set = f.at(a[0] as int) matches Some(Resource::Epoll(_));
            let there = in_bounds(m.len(), a[1] as int, a[2] * 12);
            &&& 0 <= a[0] <= u32::MAX && a[2] <= 0 ==> step == EpollModel::Done(-EINVAL)
            &&& 0 <= a[0] <= u32::MAX && a[2] > 0 && !there ==> step == EpollModel::Done(-EFAULT)
            &&& a[2] > 0 && there && !is_set ==> step == EpollModel::Done(-EBADF)
            &&& !is_set || a[2] <= 0 || !there ==> after == m
        }),
{
}

/// `epoll_pwait` waits as `epoll_wait` does, for the whole milliseconds of its
/// `struct timespec`, or for ever where it gets none.
pub proof fn pwait_is_a_wait(f: FdModel, m: Seq<u8>, a: [i64; 6], b: [i64; 6])
    requires
        0 <= a[0] <= u32::MAX,
        a[2] > 0,
        b[0] == a[0] && b[1] == a[1] && b[2] == a[2],
        a[3] == 0 && b[3] < 0 || {
            let sec = crate::bytes::int64(word_at(m, a[3] as int, 8));
            let nsec = crate::bytes::int64(word_at(m, a[3] + 8, 8));
            &&& a[3] > 0
            &&& in_bounds(m.len(), a[3] as int, 16)
            &&& 0 <= sec
            &&& 0 <= nsec < 1_000_000_000
            &&& b[3] * 1_000_000 <= sec * 1_000_000_000 + nsec < (b[3] + 1) * 1_000_000
        },
    ensures
        a[3] != 0 ==> epoll_pwait_after(f, m, a) == epoll_wait_after(f, m, b),
        a[3] == 0 && b[3] == -1 ==> epoll_pwait_after(f, m, a) == epoll_wait_after(f, m, b),
{
}

/// Whether `g` is `f` but for the registrations of the set `n`.
pub open spec fn only_set_changed(f: FdModel, g: FdModel, n: u64) -> bool {
    &&& g.slots == f.slots
    &&& g.pipes == f.pipes
    &&& g.files == f.files
    &&& g.sockets == f.sockets
    &&& g.eventfds == f.eventfds
    &&& g.next_id == f.next_id
    &&& forall|k: u64| k != n ==> (#[trigger] g.epolls.contains_key(k) == f.epolls.contains_key(k))
    &&& forall|k: u64| k != n && f.epolls.contains_key(k) ==> #[trigger] g.epolls[k] == f.epolls[k]
}

/// Whether `fd` is registered in `s`.
pub open spec fn watched(s: Seq<EpollEntry>, fd: u32) -> bool {
    exists|i: int| 0 <= i < s.len() && (#[trigger] s[i]).fd == fd
}

/// Registering (operation 1) an open descriptor that is not registered yet succeeds: a
/// later wait knows it with the events and the data of the record, and every other
/// registration stays. Registering it twice is refused.
pub proof fn adding_registers(f: FdModel, m: Seq<u8>, a: [i64; 6], n: u64)
    requires
        f.wf(),
        f.at(a[0] as int) == Some(Resource::Epoll(n)),
        f.at(a[2] as int) is Some,
        a[1] as i32 == 1,
        in_bounds(m.len(), a[3] as int, 12),
    ensures
        ({
            let (r, g) = epoll_ctl_after(f, m, a);
            let fd = a[2] as u32;
            if watched(f.epolls[n], fd) {
                r == -EEXIST && g == f
            } else {
                &&& r == 0
                &&& only_set_changed(f, g, n)
                &&& exists|e: EpollEntry|
                    #![trigger g.epolls[n].contains(e)]
                    {
                        &&& g.epolls[n].contains(e)
                        &&& e.fd == fd
                        &&& e.events == word_at(m, a[3] as int, 4)
                        &&& e.data == word_at(m, a[3] + 4, 8)
                        &&& g.epolls[n] == f.epolls[n].push(e)
                    }
            }
        }),
{
    let s = f.epolls[n];
    let fd = a[2] as u32;
    let (r, g) = epoll_ctl_after(f, m, a);
    crate::bytes::pow256_values();
    crate::bytes::le_of_value(crate::mem::window(m, a[3] as int, 4));
    crate::bytes::le_of_value(crate::mem::window(m, a[3] + 4, 8));
    if !watched(s, fd) {
        let t = g.epolls[n];
        let e = t[t.len() - 1];
        assert(t.contains(e));
    }
}

/// Changing a registration (operation 3) leaves it where it is, with the events and the
/// data of the record, and every other registration as it was. A descriptor that is not
/// registered is refused.
pub proof fn modifying_changes_one(f: FdModel, m: Seq<u8>, a: [i64; 6], n: u64, i: int)
    requires
        f.wf(),
        f.at(a[0] as int) == Some(Resource::Epoll(n)),
        f.at(a[2] as int) is Some,
        a[1] as i32 == 3,
        in_bounds(m.len(), a[3] as int, 12),
        0 <= i < f.epolls[n].len(),
    ensures
        ({
            let (r, g) = epoll_ctl_after(f, m, a);
            let fd = a[2] as u32;
            if !watched(f.epolls[n], fd) {
                r == -ENOENT && g == f
            } else {
                &&& r == 0
                &&& only_set_changed(f, g, n)
                &&& g.epolls[n].len() == f.epolls[n].len()
                &&& g.epolls[n][i].fd == f.epolls[n][i].fd
                &&& f.epolls[n][i].fd != fd ==> g.epolls[n][i] == f.epolls[n][i]
                &&& f.epolls[n][i].fd == fd ==> g.epolls[n][i].events == word_at(m, a[3] as int, 4)
                    && g.epolls[n][i].data == word_at(m, a[3] + 4, 8)
            }
        }),
{
    let s = f.epolls[n];
    let fd = a[2] as u32;
    assert(f.epolls.contains_key(n));
    assert(entries_distinct(s));
    crate::bytes::pow256_values();
    crate::bytes::le_of_value(crate::mem::window(m, a[3] as int, 4));
    crate::bytes::le_of_value(crate::mem::window(m, a[3] + 4, 8));
    if watched(s, fd) {
        let k = crate::sys::epoll::position(s, fd);
        assert(0 <= k < s.len() && s[k].fd == fd);
        if k < i {
            assert(s[k].fd != s[i].fd);
        }
        if i < k {
            assert(s[i].fd != s[k].fd);
        }
    }
}

/// Taking a registration back (operation 2) takes that one alone, whatever the record
/// is. A descriptor that is not registered is refused.
pub proof fn deleting_takes_one(f: FdModel, m: Seq<u8>, a: [i64; 6], n: u64, e: EpollEntry)
    requires
        f.wf(),
        f.at(a[0] as int) == Some(Resource::Epoll(n)),
        f.at(a[2] as int) is Some,
        a[1] as i32 == 2,
    ensures
        ({
            let (r, g) = epoll_ctl_after(f, m, a);
            let fd = a[2] as u32;
            if !watched(f.epolls[n], fd) {
                r == -ENOENT && g == f
            } else {
                &&& r == 0
                &&& only_set_changed(f, g, n)
                &&& g.epolls[n].len() == f.epolls[n].len() - 1
                &&& g.epolls[n].contains(e) == (f.epolls[n].contains(e) && e.fd != fd)
            }
        }),
{
    let s = f.epolls[n];
    let fd = a[2] as u32;
    assert(f.epolls.contains_key(n));
    assert(entries_distinct(s));
    if watched(s, fd) {
        let k = crate::sys::epoll::position(s, fd);
        assert(0 <= k < s.len() && s[k].fd == fd);
        let t = epoll_ctl_after(f, m, a).1.epolls[n];
        assert(t == s.remove(k));
        if s.contains(e) && e.fd != fd {
            let i = choose|i: int| 0 <= i < s.len() && s[i] == e;
            if i < k {
                assert(t[i] == e);
            } else {
                assert(t[i - 1] == e);
            }
        }
        if t.contains(e) {
            let i = choose|i: int| 0 <= i < t.len() && t[i] == e;
            if i < k {
                assert(s[i] == e);
                assert(s[i].fd != s[k].fd);
            } else {
                assert(s[i + 1] == e);
                assert(s[k].fd != s[i + 1].fd);
            }
        }
    }
}

/// `epoll_ctl` is refused, and changes nothing, where one of the descriptors is not open
/// or the first is no epoll set, where the operation is unknown, and where a record is
/// needed and does not lie in the memory.
pub proof fn a_registration_is_refused(f: FdModel, m: Seq<u8>, a: [i64; 6])
    ensures
        ({
            let (r, g) = epoll_ctl_after(f, m, a);
            let op = a[1] as i32;
            let open = f.at(a[0] as int) is Some && f.at(a[0] as int)->Some_0 is Epoll && f.at(
                a[2] as int,
            ) is Some;
            &&& !open ==> r == -EBADF
            &&& open && op != 1 && op != 2 && op != 3 ==> r == -EINVAL
            &&& open && (op == 1 || op == 3) && !in_bounds(m.len(), a[3] as int, 12) ==> r
                == -EFAULT
            &&& r != 0 ==> g == f
            &&& r == 0 || r < 0
        }),
{
}

/// What wakes a wait for a registration: of a socket, its own wake for reading or for
/// writing. A registration for neither is woken by changes of the set.
pub proof fn registrations_are_woken(f: FdModel, m: Seq<u8>, a: [i64; 6], n: u64, k: u64)
    requires
        f.wf(),
        f.at(a[0] as int) == Some(Resource::Epoll(n)),
        f.at(a[2] as int) == Some(Resource::Socket(k)),
        a[1] as i32 == 1,
        epoll_ctl_after(f, m, a).0 == 0,
    ensures
        ({
            let e = epoll_ctl_after(f, m, a).1.epolls[n].last();
            &&& e.events & 1 != 0 ==> e.wake == WakeSource::SocketRead(k)
            &&& e.events & 1 == 0 && e.events & 4 != 0 ==> e.wake == WakeSource::SocketWrite(k)
            &&& e.events & 1 == 0 && e.events & 4 == 0 ==> e.wake == WakeSource::Epoll(n)
        }),
{
}

/// A new epoll set has the lowest free descriptor from three on and no registration.
/// Everything that was open stays as it was.
pub proof fn a_new_set_is_empty(f: FdModel, cloexec: bool, other: u32)
    requires
        f.wf(),
    ensures
        ({
            let g = epoll_opened(f, cloexec);
            exists|fd: u32|
                #![trigger g.slots[fd]]
                {
                    &&& fd >= 3 && !f.slots.contains_key(fd)
                    &&& forall|k: u32| 3 <= k < fd ==> #[trigger] f.slots.contains_key(k)
                    &&& g.at(fd as int) matches Some(Resource::Epoll(n)) && g.epolls[n].len() == 0
                        && !f.epolls.contains_key(n) && only_set_changed(
                        FdModel { slots: g.slots, next_id: g.next_id, ..f },
                        g,
                        n,
                    )
                    &&& g.slots[fd].cloexec == cloexec
                    &&& other != fd ==> g.slots.contains_key(other) == f.slots.contains_key(other)
                    &&& other != fd && f.slots.contains_key(other) ==> g.slots[other]
                        == f.slots[other]
                }
        }),
{
    a_number_is_free(f, 3);
    let g = epoll_opened(f, cloexec);
    let fd = crate::fd::lowest_free(f.slots, 3);
    assert(g.slots[fd].cloexec == cloexec);
}

} // verus!
