//! Waiting with `poll`, `ppoll` and `select`.

use vstd::prelude::*;
use crate::bytes::int16;
use crate::bytes::int32;
use crate::bytes::int64;
use crate::bytes::le_len;
use crate::bytes::le_of_value;
use crate::bytes::pow256_values;
use crate::errno::EFAULT;
use crate::errno::EINTR;
use crate::errno::EINVAL;
use crate::fd::FdModel;
use crate::fd::Resource;
use crate::fd::WakeSource;
use crate::mem::in_bounds;
use crate::mem::window;
use crate::mem::word_at;
use crate::mem::written;
use crate::sys::poll::entries_read_back;
use crate::sys::poll::in_fd_set;
use crate::sys::poll::poll_after;
use crate::sys::poll::poll_after_wait;
use crate::sys::poll::poll_wakes;
use crate::sys::poll::pollfd_image;
use crate::sys::poll::pollfds;
use crate::sys::poll::ppoll_after;
use crate::sys::poll::readiness;
use crate::sys::poll::ready_count;
use crate::sys::poll::reported;
use crate::sys::poll::results_read_back;
use crate::sys::poll::revents;
use crate::sys::poll::revents_at;
use crate::sys::poll::revents_put;
use crate::sys::poll::select_after;
use crate::sys::poll::select_entries;
use crate::sys::poll::select_events;
use crate::sys::poll::select_reported;
use crate::sys::poll::select_reports_the_ready;
use crate::sys::poll::sets_apart;
use crate::sys::poll::timespec_ms;
use crate::sys::poll::timeval_ms;
use crate::sys::poll::PollModel;
use crate::sys::poll::PollWaitModel;
use crate::sys::poll::SelectModel;
use crate::sys::poll::SelectionModel;
use crate::sys::poll::WaitEvent;

verus! {

broadcast use le_len;

proof fn bits(x: i16)
    ensures
        (if x & 1 != 0 {
            1i16
        } else {
            0i16
        }) == x & 1,
        (if x & 4 != 0 {
            4i16
        } else {
            0i16
        }) == x & 4,
        (x & 1) | (x & 4) == x & 5,
        4i16 & x == x & 4,
        (1i16 | 4i16) & x == x & 5,
        (x & 1) | 8 == (x & 1) + 8,
        x | 0 == x,
        0 | x == x,
        0i16 | 8i16 == 8,
        1i16 | 0i16 == 1,
        1i16 | 8i16 == 9,
        0x20i16 | 0x20i16 == 0x20,
        0x20i16 | 0i16 == 0x20,
        0i16 | 0x20i16 == 0x20,
        0i16 | 0i16 == 0,
{
    assert((if x & 1 != 0 {
        1i16
    } else {
        0i16
    }) == x & 1 && (if x & 4 != 0 {
        4i16
    } else {
        0i16
    }) == x & 4) by (bit_vector);
    assert((x & 1) | (x & 4) == x & 5 && 4i16 & x == x & 4 && (1i16 | 4i16) & x == x & 5 && (x & 1)
        | 8 == (x & 1) + 8 && x | 0 == x && 0 | x == x && 0i16 | 8i16 == 8 && 1i16 | 0i16 == 1 && 1i16
        | 8i16 == 9 && 0x20i16 | 0x20i16 == 0x20 && 0x20i16 | 0i16 == 0x20 && 0i16 | 0x20i16 == 0x20 && 0i16 | 0i16 == 0)
        by (bit_vector);
}

/// What a look at a descriptor finds, of reading (1) and writing (4) as they were asked
/// for: a file and a connected socket are ready for both, the writing end of a pipe for
/// writing, and its reading end for reading once it holds bytes or is closed; asking it
/// for writing is an error (8). Standard input is ready for reading unless it is closed
/// and empty. A descriptor that names nothing, or what cannot be looked at, is invalid
/// (0x20), and so is a socket that is bound and not connected for what it was asked.
pub proof fn a_look_finds_what_is_ready(f: FdModel, fd: int, asked: i16)
    ensures
        ({
            let v = revents(f, fd, asked);
            let error: int = if asked & 4 != 0 {
                8
            } else {
                0
            };
            match f.at(fd) {
                None | Some(Resource::Epoll(_)) | Some(Resource::EventFd(_)) => v == 0x20,
                Some(Resource::File(_)) => v == asked & 5,
                Some(Resource::Stdout(_)) | Some(Resource::Stderr(_)) | Some(
                    Resource::PipeWrite(_),
                ) => v == asked & 4,
                Some(Resource::PipeRead(n)) => if f.pipes[n].buf.len() > 0 || f.pipes[n].closed {
                    v == (asked & 1) + error
                } else {
                    v == error
                },
                Some(Resource::Stdin(n)) => if f.pipes[n].buf.len() == 0 && f.pipes[n].closed {
                    v == error
                } else {
                    v == (asked & 1) + error
                },
                Some(Resource::Socket(n)) => {
                    let s = f.sockets[n];
                    let invalid = (asked & 1 != 0 && s.bound is Some && s.listen_backlog is Some)
                        || (asked & 4 != 0 && s.bound is Some);
                    &&& s.stream ==> v == asked & 5
                    &&& !s.stream && invalid ==> v == 0x20
                    &&& !s.stream && !invalid ==> v == 0
                },
            }
        }),
{
    bits(asked);
}

/// The descriptor and the events of the `i`-th record at `ptr`.
pub open spec fn asked_at(m: Seq<u8>, ptr: int, i: int) -> (int, int) {
    (int32(word_at(m, ptr + 8 * i, 4)), int16(word_at(m, ptr + 8 * i + 4, 2)))
}

/// What a look at the descriptor of the `i`-th record finds.
pub open spec fn found(f: FdModel, m: Seq<u8>, ptr: int, i: int) -> i16 {
    revents(f, asked_at(m, ptr, i).0, asked_at(m, ptr, i).1 as i16)
}

proof fn records(m: Seq<u8>, ptr: int, n: int)
    requires
        n >= 0,
        in_bounds(m.len(), ptr, n * 8),
    ensures
        forall|i: int|
            0 <= i < n ==> (#[trigger] pollfds(m, ptr, n)[i]).0 == asked_at(m, ptr, i).0 && pollfds(
                m,
                ptr,
                n,
            )[i].1 == asked_at(m, ptr, i).1,
{
    pow256_values();
    assert forall|i: int| 0 <= i < n implies (#[trigger] pollfds(m, ptr, n)[i]).0 == asked_at(
        m,
        ptr,
        i,
    ).0 && pollfds(m, ptr, n)[i].1 == asked_at(m, ptr, i).1 by {
        le_of_value(window(m, ptr + 8 * i, 4));
        le_of_value(window(m, ptr + 8 * i + 4, 2));
    }
}

proof fn counts(rs: Seq<i16>)
    ensures
        ready_count(rs) <= rs.len(),
        ready_count(rs) > 0 <==> exists|i: int| 0 <= i < rs.len() && #[trigger] rs[i] != 0,
        ready_count(rs) == rs.filter(|x: i16| x != 0).len(),
    decreases rs.len(),
{
    reveal(Seq::filter);
    if rs.len() > 0 {
        let t = rs.drop_last();
        counts(t);
        if ready_count(t) > 0 {
            let i = choose|i: int| 0 <= i < t.len() && #[trigger] t[i] != 0;
            assert(rs[i] != 0);
        }
        if rs.last() != 0 {
            assert(rs[rs.len() - 1] != 0);
        }
        if exists|i: int| 0 <= i < rs.len() && #[trigger] rs[i] != 0 {
            let i = choose|i: int| 0 <= i < rs.len() && #[trigger] rs[i] != 0;
            if i < t.len() {
                assert(t[i] != 0);
            }
        }
    }
}

/// Whether byte `k` belongs to the result of one of `n` records at `ptr`.
pub open spec fn in_a_result(ptr: int, n: int, k: int) -> bool {
    ptr <= k < ptr + 8 * n && (k - ptr) % 8 >= 6
}

proof fn results_alone(m: Seq<u8>, ptr: int, rs: Seq<i16>, k: int)
    requires
        in_bounds(m.len(), ptr, rs.len() * 8int),
        0 <= k < m.len(),
        !in_a_result(ptr, rs.len() as int, k),
    ensures
        revents_put(m, ptr, rs)[k] == m[k],
        revents_put(m, ptr, rs).len() == m.len(),
    decreases rs.len(),
{
    if rs.len() > 0 {
        let t = rs.drop_last();
        assert(in_bounds(m.len(), ptr, t.len() * 8int));
        results_alone(m, ptr, t, k);
        let at = ptr + 8 * (rs.len() - 1) + 6;
        assert(!(at <= k < at + 2)) by {
            if at <= k < at + 2 {
                assert((k - ptr) % 8 >= 6);
            }
        }
    }
}

/// A `poll` that ends has looked at every descriptor: the result of each record is what
/// the look found, the answer is how many found something, and no other byte of the
/// memory changes. It ends where something is found, or without a time to wait; otherwise
/// it waits, for ever where its time is negative, and changes nothing.
pub proof fn poll_tells_what_it_found(f: FdModel, m: Seq<u8>, a: [i64; 6], i: int, k: int)
    requires
        0 <= i < a[1],
        in_bounds(m.len(), a[0] as int, a[1] * 8),
        a[1] * 8 <= u64::MAX,
        0 <= k < m.len(),
    ensures
        ({
            let ptr = a[0] as int;
            let n = a[1] as int;
            let (step, after) = poll_after(f, m, a);
            let all = Seq::new(n as nat, |j: int| found(f, m, ptr, j));
            let some = exists|j: int| 0 <= j < n && #[trigger] found(f, m, ptr, j) != 0;
            &&& some || a[2] == 0 ==> {
                &&& step == PollModel::Done(all.filter(|x: i16| x != 0).len() as int)
                &&& some <==> (step matches PollModel::Done(r) && r > 0)
                &&& int16(word_at(after, ptr + 8 * i + 6, 2)) == found(f, m, ptr, i)
                &&& !in_a_result(ptr, n, k) ==> after[k] == m[k]
                &&& after.len() == m.len()
            }
            &&& !some && a[2] != 0 ==> {
                &&& after == m
                &&& step matches PollModel::Wait(w) && w.ptr == ptr && w.timeout == (if a[2] < 0 {
                    None
                } else {
                    Some(a[2])
                }) && w.entries.len() == n && w.entries[i].0 == asked_at(m, ptr, i).0
                    && w.entries[i].1 == asked_at(m, ptr, i).1 && w.wakes == poll_wakes(f, w.entries)
            }
        }),
{
    let ptr = a[0] as int;
    let n = a[1] as int;
    let entries = pollfds(m, ptr, n);
    records(m, ptr, n);
    let rs = readiness(f, entries);
    let all = Seq::new(n as nat, |j: int| found(f, m, ptr, j));
    assert(rs =~= all) by {
        assert forall|j: int| 0 <= j < n implies rs[j] == all[j] by {
            assert(entries[j].0 == asked_at(m, ptr, j).0);
        }
    }
    counts(rs);
    let some = exists|j: int| 0 <= j < n && #[trigger] found(f, m, ptr, j) != 0;
    if some {
        let j = choose|j: int| 0 <= j < n && #[trigger] found(f, m, ptr, j) != 0;
        assert(rs[j] != 0);
    }
    if ready_count(rs) > 0 {
        let j = choose|j: int| 0 <= j < rs.len() && #[trigger] rs[j] != 0;
        assert(found(f, m, ptr, j) != 0);
    }
    if some || a[2] == 0 {
        results_read_back(m, ptr, rs);
        let after = poll_after(f, m, a).1;
        assert(revents_at(after, ptr, n)[i] == rs[i]);
        pow256_values();
        results_len(m, ptr, rs);
        le_of_value(window(after, ptr + 8 * i + 6, 2));
        if !in_a_result(ptr, n, k) {
            results_alone(m, ptr, rs, k);
        }
    } else {
        assert(entries[i].0 == asked_at(m, ptr, i).0);
    }
}

proof fn results_len(m: Seq<u8>, ptr: int, rs: Seq<i16>)
    ensures
        revents_put(m, ptr, rs).len() == m.len(),
    decreases rs.len(),
{
    if rs.len() > 0 {
        results_len(m, ptr, rs.drop_last());
    }
}

/// A wait of `poll` that was woken looks again, and waits on where nothing is found; one
/// whose time is over ends in any case; a signal ends it with an error.
pub proof fn a_woken_poll_looks_again(
    f: FdModel,
    m: Seq<u8>,
    w: PollWaitModel,
    event: WaitEvent,
    i: int,
)
    requires
        in_bounds(m.len(), w.ptr, w.entries.len() * 8int),
        0 <= i < w.entries.len(),
    ensures
        ({
            let (step, after) = poll_after_wait(f, m, w, event);
            let some = exists|j: int|
                0 <= j < w.entries.len() && revents(
                    f,
                    (#[trigger] w.entries[j]).0 as int,
                    w.entries[j].1,
                ) != 0;
            &&& event == WaitEvent::Interrupted ==> step == PollModel::Done(-EINTR) && after == m
            &&& event == WaitEvent::Woken && !some ==> step == PollModel::Wait(w) && after == m
            &&& event == WaitEvent::TimedOut || (event == WaitEvent::Woken && some) ==> {
                &&& step matches PollModel::Done(r) && (r > 0 <==> some) && 0 <= r
                    <= w.entries.len()
                &&& int16(word_at(after, w.ptr + 8 * i + 6, 2)) == revents(
                    f,
                    w.entries[i].0 as int,
                    w.entries[i].1,
                )
            }
        }),
{
    let rs = readiness(f, w.entries);
    counts(rs);
    results_read_back(m, w.ptr, rs);
    results_len(m, w.ptr, rs);
    pow256_values();
    let done = revents_put(m, w.ptr, rs);
    assert(revents_at(done, w.ptr, rs.len() as int)[i] == rs[i]);
    le_of_value(window(done, w.ptr + 8 * i + 6, 2));
    if ready_count(rs) > 0 {
        let j = choose|j: int| 0 <= j < rs.len() && #[trigger] rs[j] != 0;
        assert(revents(f, w.entries[j].0 as int, w.entries[j].1) != 0);
    }
    if exists|j: int|
        0 <= j < w.entries.len() && revents(
            f,
            (#[trigger] w.entries[j]).0 as int,
            w.entries[j].1,
        ) != 0 {
        let j = choose|j: int|
            0 <= j < w.entries.len() && revents(
                f,
                (#[trigger] w.entries[j]).0 as int,
                w.entries[j].1,
            ) != 0;
        assert(rs[j] != 0);
    }
}

/// What wakes a `poll`: the pipe or the socket behind each of its descriptors.
pub proof fn polled_objects_wake(f: FdModel, entries: Seq<(i32, i16)>, i: int)
    requires
        0 <= i < entries.len(),
    ensures
        match f.at(entries[i].0 as int) {
            Some(Resource::PipeRead(n)) | Some(Resource::PipeWrite(n)) => poll_wakes(
                f,
                entries,
            ).contains(WakeSource::Pipe(n)),
            Some(Resource::Socket(n)) => poll_wakes(f, entries).contains(WakeSource::SocketRead(n)),
            _ => true,
        },
    decreases entries.len(),
{
    let t = entries.drop_last();
    let s = poll_wakes(f, t);
    let r = poll_wakes(f, entries);
    if i < t.len() {
        polled_objects_wake(f, t, i);
        assert(t[i] == entries[i]);
        assert forall|w: WakeSource| s.contains(w) implies r.contains(w) by {
            let k = choose|k: int| 0 <= k < s.len() && s[k] == w;
            assert(r[k] == w);
        }
    } else {
        match f.at(entries[i].0 as int) {
            Some(Resource::PipeRead(n)) => {
                assert(r[r.len() - 1] == WakeSource::Pipe(n));
            },
            Some(Resource::PipeWrite(n)) => {
                assert(r[r.len() - 1] == WakeSource::Pipe(n));
            },
            Some(Resource::Socket(n)) => {
                assert(r[r.len() - 1] == WakeSource::SocketRead(n));
            },
            _ => {},
        }
    }
}

/// `poll` is refused with a negative number of records, with more than can be counted, and
/// with records outside of the memory. No records are no wait.
pub proof fn a_poll_is_refused(f: FdModel, m: Seq<u8>, a: [i64; 6])
    ensures
        a[1] < 0 ==> poll_after(f, m, a) == (PollModel::Done(-EINVAL), m),
        a[1] == 0 ==> poll_after(f, m, a) == (PollModel::Done(0), m),
        a[1] * 8 > u64::MAX ==> poll_after(f, m, a) == (PollModel::Done(-EINVAL), m),
        a[1] > 0 && a[1] * 8 <= u64::MAX && !in_bounds(m.len(), a[0] as int, a[1] * 8)
            ==> poll_after(f, m, a) == (PollModel::Done(-EFAULT), m),
{
}

/// The time that a `struct timespec` gives is its whole milliseconds, and that of a
/// `struct timeval` too, up to the highest number there is. None is for ever. Negative
/// parts, and a second or more in nanoseconds, are refused.
pub proof fn times_are_whole_milliseconds(m: Seq<u8>, ptr: int)
    ensures
        ({
            let sec = int64(word_at(m, ptr, 8));
            let sub = int64(word_at(m, ptr + 8, 8));
            let spec = timespec_ms(m, ptr);
            let val = timeval_ms(m, ptr);
            &&& ptr == 0 ==> (spec matches Ok(t) && t == -1) && (val matches Ok(t) && t == -1)
            &&& ptr != 0 && !in_bounds(m.len(), ptr, 16) ==> (spec matches Err(e) && e == -EFAULT)
                && (val matches Err(e) && e == -EFAULT)
            &&& ptr != 0 && in_bounds(m.len(), ptr, 16) ==> {
                &&& sec < 0 || sub < 0 || sub >= 1_000_000_000 ==> (spec matches Err(e) && e
                    == -EINVAL)
                &&& 0 <= sec && 0 <= sub < 1_000_000_000 ==> (spec matches Ok(t) && {
                    &&& t < i64::MAX ==> t * 1_000_000 <= sec * 1_000_000_000 + sub < (t + 1)
                        * 1_000_000
                    &&& t == i64::MAX ==> sec * 1_000_000_000 + sub >= t * 1_000_000
                })
                &&& sec < 0 || sub < 0 ==> (val matches Err(e) && e == -EINVAL)
                &&& 0 <= sec && 0 <= sub ==> (val matches Ok(t) && {
                    &&& t < i64::MAX ==> t * 1000 <= sec * 1_000_000 + sub < (t + 1) * 1000
                    &&& t == i64::MAX ==> sec * 1_000_000 + sub >= t * 1000
                })
            }
        }),
{
    pow256_values();
    if ptr != 0 && in_bounds(m.len(), ptr, 16) {
        le_of_value(window(m, ptr, 8));
        le_of_value(window(m, ptr + 8, 8));
    }
}

/// `ppoll` waits as `poll` does, for the time of its record.
pub proof fn ppoll_is_a_poll(f: FdModel, m: Seq<u8>, a: [i64; 6], b: [i64; 6])
    requires
        a[1] > 0,
        b[0] == a[0] && b[1] == a[1],
        timespec_ms(m, a[2] as int) == Ok::<i64, i64>(b[2]),
    ensures
        ppoll_after(f, m, a) == poll_after(f, m, b),
{
}

proof fn selected(m: Seq<u8>, rset: int, wset: int, n: nat)
    ensures
        forall|i: int|
            0 <= i < select_entries(m, rset, wset, n).len() ==> {
                let e = #[trigger] select_entries(m, rset, wset, n)[i];
                &&& 0 <= e.0 < n || n > i32::MAX
                &&& n <= i32::MAX ==> select_events(m, rset, wset, e.0 as int) == Some(e.1)
            },
        forall|g: int|
            #![trigger select_events(m, rset, wset, g)]
            n <= i32::MAX && 0 <= g < n ==> (select_events(m, rset, wset, g) matches Some(ev)
                ==> exists|i: int|
                0 <= i < select_entries(m, rset, wset, n).len() && #[trigger] select_entries(
                    m,
                    rset,
                    wset,
                    n,
                )[i] == (g as i32, ev)),
        select_entries(m, rset, wset, n).len() <= n,
    decreases n,
{
    if n > 0 {
        let k = (n - 1) as nat;
        selected(m, rset, wset, k);
        let s = select_entries(m, rset, wset, k);
        let r = select_entries(m, rset, wset, n);
        if n <= i32::MAX {
            assert forall|g: int|
                #![trigger select_events(m, rset, wset, g)]
                0 <= g < n implies (select_events(m, rset, wset, g) matches Some(ev) ==> exists|
                i: int,
            |
                0 <= i < r.len() && #[trigger] r[i] == (g as i32, ev)) by {
                if let Some(ev) = select_events(m, rset, wset, g) {
                    if g < k {
                        let i = choose|i: int| 0 <= i < s.len() && #[trigger] s[i] == (g as i32, ev);
                        assert(r[i] == (g as i32, ev));
                    } else {
                        assert(r[r.len() - 1] == (g as i32, ev));
                    }
                }
            }
        }
    }
}

/// The memory once a `select` has looked at its descriptors.
proof fn looked_at(f: FdModel, m: Seq<u8>, a: [i64; 6]) -> (p1: Seq<u8>)
    requires
        0 <= a[0] <= 1024,
        select_after(f, m, a).0 matches SelectModel::Done(r) && r >= 0,
        select_entries(m, a[1] as int, a[2] as int, a[0] as nat).len() > 0,
    ensures
        ({
            let entries = select_entries(m, a[1] as int, a[2] as int, a[0] as nat);
            &&& p1.len() == m.len()
            &&& revents_at(p1, 8192, entries.len() as int) == readiness(f, entries)
            &&& select_after(f, m, a).1 == select_reported(
                p1,
                SelectionModel { entries, rset: a[1] as int, wset: a[2] as int },
            )
        }),
{
    let entries = select_entries(m, a[1] as int, a[2] as int, a[0] as nat);
    selected(m, a[1] as int, a[2] as int, a[0] as nat);
    image_len(entries);
    let scratch = written(m, 8192, pollfd_image(entries));
    if in_bounds(m.len(), 8192, entries.len() * 8int) {
        entries_read_back(m, 8192, entries);
        assert(pollfds(scratch, 8192, entries.len() as int) == entries);
        let rs = readiness(f, entries);
        results_read_back(scratch, 8192, rs);
        results_len(scratch, 8192, rs);
        revents_put(scratch, 8192, rs)
    } else {
        m
    }
}

/// A `select` that ends leaves in its sets those of its descriptors that are ready: one
/// stays in the set for reading where it was there, below the number of descriptors, and
/// a look finds it ready for reading; and so for writing. No other is put in. At least
/// one descriptor, `h`, was in a set.
pub proof fn select_leaves_the_ready(f: FdModel, m: Seq<u8>, a: [i64; 6], g: int, h: int)
    requires
        0 <= a[0] <= 1024,
        0 <= g < 1024,
        sets_apart(m, a[1] as int, a[2] as int),
        select_after(f, m, a).0 matches SelectModel::Done(r) && r >= 0,
        0 <= h < a[0],
        in_fd_set(m, a[1] as int, h) || in_fd_set(m, a[2] as int, h),
    ensures
        ({
            let after = select_after(f, m, a).1;
            let rd = in_fd_set(m, a[1] as int, g);
            let wr = in_fd_set(m, a[2] as int, g);
            let asked: i16 = if rd && wr {
                5
            } else if rd {
                1
            } else {
                4
            };
            let found = revents(f, g, asked);
            &&& in_fd_set(after, a[1] as int, g) == (g < a[0] && rd && found & 1 != 0)
            &&& in_fd_set(after, a[2] as int, g) == (g < a[0] && wr && found & 4 != 0)
        }),
{
    let rset = a[1] as int;
    let wset = a[2] as int;
    let n = a[0] as nat;
    let entries = select_entries(m, rset, wset, n);
    selected(m, rset, wset, n);
    assert(select_events(m, rset, wset, h) is Some);
    assert(entries.len() > 0);
    let rs = readiness(f, entries);
    let p1 = looked_at(f, m, a);
    let s = SelectionModel { entries, rset, wset };
    assert forall|i: int| 0 <= i < entries.len() implies 0 <= (#[trigger] entries[i]).0 < 1024 by {}
    select_reports_the_ready(p1, s, g);
    let rd = in_fd_set(m, rset, g);
    let wr = in_fd_set(m, wset, g);
    let asked: i16 = if rd && wr {
        5
    } else if rd {
        1
    } else {
        4
    };
    assert(1i16 | 4i16 == 5 && 5i16 & 1 != 0 && 5i16 & 4 != 0 && 1i16 & 1 != 0 && 4i16 & 4 != 0 && 1i16
        & 4 == 0 && 4i16 & 1 == 0) by (bit_vector);
    if g < a[0] && (rd || wr) {
        assert(select_events(m, rset, wset, g) == Some(asked));
        let i = choose|i: int| 0 <= i < entries.len() && #[trigger] entries[i] == (g as i32, asked);
        assert(rs[i] == revents(f, g, asked));
        assert(entries[i].0 == g);
    }
    if reported(entries, rs, 1, g) {
        let i = choose|i: int|
            0 <= i < entries.len() && (#[trigger] entries[i]).0 == g && rs[i] & 1 != 0
                && entries[i].1 & 1 != 0;
        assert(select_events(m, rset, wset, g) == Some(entries[i].1));
        assert(rs[i] == revents(f, g, entries[i].1));
    }
    if reported(entries, rs, 4, g) {
        let i = choose|i: int|
            0 <= i < entries.len() && (#[trigger] entries[i]).0 == g && rs[i] & 4 != 0
                && entries[i].1 & 4 != 0;
        assert(select_events(m, rset, wset, g) == Some(entries[i].1));
        assert(rs[i] == revents(f, g, entries[i].1));
    }
}

proof fn image_len(entries: Seq<(i32, i16)>)
    ensures
        pollfd_image(entries).len() == entries.len() * 8,
    decreases entries.len(),
{
    if entries.len() > 0 {
        image_len(entries.drop_last());
    }
}

/// `select` is refused with a negative number of descriptors; with none to look at it
/// ends at once.
pub proof fn an_empty_select_ends(f: FdModel, m: Seq<u8>, a: [i64; 6])
    requires
        forall|h: int|
            0 <= h < a[0] ==> !(#[trigger] in_fd_set(m, a[1] as int, h)) && !in_fd_set(
                m,
                a[2] as int,
                h,
            ),
    ensures
        a[0] < 0 || a[0] > i32::MAX ==> select_after(f, m, a) == (SelectModel::Done(-EINVAL), m),
        0 <= a[0] <= i32::MAX ==> select_after(f, m, a) == (SelectModel::Done(0), m),
{
    if 0 <= a[0] <= i32::MAX {
        let n: nat = if a[0] < 1024 {
            a[0] as nat
        } else {
            1024
        };
        selected(m, a[1] as int, a[2] as int, n);
        let entries = select_entries(m, a[1] as int, a[2] as int, n);
        if entries.len() > 0 {
            let e = entries[0];
            assert(select_events(m, a[1] as int, a[2] as int, e.0 as int) == Some(e.1));
            assert(!in_fd_set(m, a[1] as int, e.0 as int));
        }
    }
}

/// Membership in a set of descriptors: bit `fd % 8` of byte `fd / 8`.
pub proof fn a_set_has_a_bit_for_each(m: Seq<u8>, set: int, fd: int)
    requires
        set != 0,
        in_bounds(m.len(), set, 128),
        0 <= fd < 1024,
    ensures
        in_fd_set(m, set, fd) == ((word_at(m, set + 8 * (fd / 64), 8) as u64 >> ((fd % 64) as u64)) & 1
            != 0),
{
}

} // verus!
