//! Event counters, device requests, random bytes, and what the guest is told of the
//! system.

use vstd::prelude::*;
use crate::bytes::le;
use crate::bytes::le_len;
use crate::bytes::le_of_value;
use crate::bytes::le_round_trip;
use crate::bytes::pow256_values;
use crate::fd::a_number_is_free;
use crate::fd::FdModel;
use crate::fd::Resource;
use crate::fd::SocketModel;
use crate::mem::in_bounds;
use crate::mem::window;
use crate::mem::word_at;
use crate::sys::eventfd::counter_read_after;
use crate::sys::eventfd::counter_write_after;
use crate::sys::eventfd::eventfd2_after;
use crate::sys::identity::ascii;
use crate::sys::identity::getgroups_answer;
use crate::sys::identity::prlimit_after;
use crate::sys::identity::uname_after;
use crate::sys::identity::uts_field;
use crate::sys::identity::utsname_image;
use crate::sys::ioctl::ioctl_after;
use crate::sys::random::random_given;
use crate::sys::random::random_len;

verus! {

broadcast use le_len;

/// A new event counter has the lowest free descriptor from three on. It holds the number
/// that it was made with, and blocks unless 0o4000 is among its flags. Every other
/// descriptor and object is as it was.
pub proof fn a_new_counter_holds_its_number(f: FdModel, a: [i64; 6])
    requires
        f.wf(),
        f.room(1),
    ensures
        ({
            let (r, g) = eventfd2_after(f, a);
            &&& r >= 3
            &&& f.at(r) is None
            &&& forall|k: int| 3 <= k < r ==> #[trigger] f.at(k) is Some
            &&& g.at(r) matches Some(Resource::EventFd(n)) && {
                &&& !f.eventfds.contains_key(n)
                &&& a[0] >= 0 ==> g.eventfds[n].counter == a[0]
                &&& a[0] < 0 ==> g.eventfds[n].counter == a[0] + 0x1_0000_0000_0000_0000
                &&& g.eventfds[n].nonblock == ((a[1] as i32) & 0o4000 != 0)
                &&& forall|k: u64| k != n ==> (#[trigger] g.eventfds.contains_key(k)
                    == f.eventfds.contains_key(k))
            }
            &&& forall|k: u32| k != r ==> #[trigger] g.at(k as int) == f.at(k as int)
            &&& g.pipes == f.pipes && g.files == f.files && g.sockets == f.sockets && g.epolls
                == f.epolls
        }),
{
    a_number_is_free(f, 3);
}

/// A counter that is read into a buffer of eight bytes or more leaves its number there,
/// and is zero. One at zero that does not block is told apart by an error.
pub proof fn a_counter_is_read(f: FdModel, m: Seq<u8>, fd: u32, p: i64, len: i64, n: u64)
    requires
        len >= 8,
        f.at(fd as int) == Some(Resource::EventFd(n)),
    ensures
        ({
            let (r, g, after) = counter_read_after(f, m, fd, p, len);
            let e = f.eventfds[n];
            &&& g.eventfds[n].counter == 0 && g.eventfds[n].nonblock == e.nonblock
            &&& g.slots == f.slots && g.pipes == f.pipes && g.sockets == f.sockets && g.files
                == f.files
            &&& e.counter == 0 && e.nonblock ==> r == -11 && after == m
            &&& !(e.counter == 0 && e.nonblock) && in_bounds(m.len(), p as int, 8) ==> r == 8
                && word_at(after, p as int, 8) == e.counter && forall|k: int|
                0 <= k < m.len() && !(p <= k < p + 8) ==> #[trigger] after[k] == m[k]
            &&& !(e.counter == 0 && e.nonblock) && !in_bounds(m.len(), p as int, 8) ==> r == -14
                && after == m
        }),
{
    pow256_values();
    let e = f.eventfds[n];
    le_round_trip(e.counter as nat, 8);
    let after = counter_read_after(f, m, fd, p, len).2;
    if in_bounds(m.len(), p as int, 8) && !(e.counter == 0 && e.nonblock) {
        assert(window(after, p as int, 8) =~= le(e.counter as nat, 8));
    }
}

/// A counter that is written to from a buffer of eight bytes or more holds as much more
/// as the buffer says, up to the highest number there is.
pub proof fn a_counter_is_written(f: FdModel, m: Seq<u8>, fd: u32, p: i64, len: i64, n: u64)
    requires
        len >= 8,
        f.at(fd as int) == Some(Resource::EventFd(n)),
    ensures
        ({
            let (r, g) = counter_write_after(f, m, fd, p, len);
            let sum = f.eventfds[n].counter + word_at(m, p as int, 8);
            &&& in_bounds(m.len(), p as int, 8) ==> {
                &&& r == 8
                &&& sum <= u64::MAX ==> g.eventfds[n].counter == sum
                &&& sum > u64::MAX ==> g.eventfds[n].counter == u64::MAX
                &&& g.eventfds[n].nonblock == f.eventfds[n].nonblock
                &&& g.slots == f.slots && g.pipes == f.pipes && g.sockets == f.sockets && g.files
                    == f.files
            }
            &&& !in_bounds(m.len(), p as int, 8) ==> r == -14 && g == f
        }),
{
    pow256_values();
    if in_bounds(m.len(), p as int, 8) {
        le_of_value(window(m, p as int, 8));
    }
}

/// A buffer of less than eight bytes is refused, and so is what is no counter.
pub proof fn a_counter_call_is_refused(f: FdModel, m: Seq<u8>, fd: u32, p: i64, len: i64)
    ensures
        len < 8 ==> counter_read_after(f, m, fd, p, len) == (-22int, f, m),
        len < 8 ==> counter_write_after(f, m, fd, p, len) == (-22int, f),
        len >= 8 && !(f.at(fd as int) matches Some(Resource::EventFd(_))) ==> counter_read_after(
            f,
            m,
            fd,
            p,
            len,
        ) == (-9int, f, m),
        len >= 8 && in_bounds(m.len(), p as int, 8) && !(f.at(fd as int) matches Some(
            Resource::EventFd(_),
        )) ==> counter_write_after(f, m, fd, p, len) == (-9int, f),
{
}

/// The request 0x5421 says whether a socket blocks: not where its argument is not zero.
/// It changes that one thing of that one socket. Of a file it is heard without effect,
/// and of anything else it is refused.
#[verifier::rlimit(60)]
pub proof fn blocking_is_switched(f: FdModel, m: Seq<u8>, a: [i64; 6])
    requires
        f.wf(),
        0 <= a[0] <= u32::MAX,
        a[1] == 0x5421,
    ensures
        ({
            let (r, g, after) = ioctl_after(f, m, a);
            &&& after == m
            &&& match f.at(a[0] as int) {
                Some(Resource::Socket(n)) => {
                    let s = f.sockets[n];
                    let t = g.sockets[n];
                    &&& r == 0
                    &&& t.nonblock == (a[2] != 0)
                    &&& t.stream == s.stream && t.bound == s.bound && t.listen_backlog
                        == s.listen_backlog && t.listener == s.listener && t.kind == s.kind
                    &&& forall|k: u64| k != n && f.sockets.contains_key(k) ==> #[trigger] g.sockets[k]
                        == f.sockets[k]
                    &&& g.slots == f.slots && g.pipes == f.pipes && g.files == f.files
                },
                Some(Resource::File(_)) => r == 0 && g == f,
                _ => r == -9 && g == f,
            }
        }),
{
    if let Some(Resource::Socket(n)) = f.at(a[0] as int) {
        let t = SocketModel { nonblock: a[2] != 0, ..f.sockets[n] };
        let g = ioctl_after(f, m, a).1;
        assert(g == f.with_socket(n, t));
        assert(g.sockets[n] == t);
    }
}

/// The request 0x541B tells that no byte waits, 0x5413 tells a terminal of 24 rows and 80
/// columns, and no other request is known. None of them changes a descriptor.
pub proof fn a_device_is_told(f: FdModel, m: Seq<u8>, a: [i64; 6])
    requires
        0 <= a[1] <= u32::MAX,
        a[1] != 0x5421,
    ensures
        ({
            let (r, g, after) = ioctl_after(f, m, a);
            let p = a[2] as int;
            &&& g == f
            &&& a[1] != 0x541b && a[1] != 0x5413 ==> r == -25 && after == m
            &&& a[1] == 0x541b && p == 0 ==> r == 0 && after == m
            &&& a[1] == 0x541b && p != 0 && !in_bounds(m.len(), p, 4) ==> r == -14 && after == m
            &&& a[1] == 0x541b && p != 0 && in_bounds(m.len(), p, 4) ==> r == 0 && word_at(
                after,
                p,
                4,
            ) == 0 && forall|k: int|
                0 <= k < m.len() && !(p <= k < p + 4) ==> #[trigger] after[k] == m[k]
            &&& a[1] == 0x5413 && p == 0 ==> r == -22 && after == m
            &&& a[1] == 0x5413 && p != 0 && !in_bounds(m.len(), p, 8) ==> r == -14 && after == m
            &&& a[1] == 0x5413 && p != 0 && in_bounds(m.len(), p, 8) ==> {
                &&& r == 0
                &&& word_at(after, p, 2) == 24
                &&& word_at(after, p + 2, 2) == 80
                &&& word_at(after, p + 4, 4) == 0
                &&& forall|k: int|
                    0 <= k < m.len() && !(p <= k < p + 8) ==> #[trigger] after[k] == m[k]
            }
        }),
{
    pow256_values();
    le_round_trip(0, 4);
    le_round_trip(24, 2);
    le_round_trip(80, 2);
    let p = a[2] as int;
    let after = ioctl_after(f, m, a).2;
    if a[1] == 0x541b && p != 0 && in_bounds(m.len(), p, 4) {
        assert(window(after, p, 4) =~= le(0, 4));
    }
    if a[1] == 0x5413 && p != 0 && in_bounds(m.len(), p, 8) {
        assert(window(after, p, 2) =~= le(24, 2));
        assert(window(after, p + 2, 2) =~= le(80, 2));
        reveal_with_fuel(le, 5);
        assert(window(after, p + 4, 4) =~= le(0, 4));
    }
}

/// `getrandom` knows the flags 1 and 2 and gives no more than 4096 bytes. What it gives
/// is written whole, and the answer is its length.
pub proof fn random_bytes_are_given(m: Seq<u8>, p: int, bytes: Seq<u8>, len: i64, k: int)
    requires
        0 <= k < m.len(),
    ensures
        forall|flags: i64|
            0 <= flags <= 3 && 0 <= len <= 4096 ==> #[trigger] random_len(len, flags) == Ok::<
                int,
                i64,
            >(len as int),
        forall|flags: i64|
            0 <= flags <= 3 && !(0 <= len <= 4096) ==> #[trigger] random_len(len, flags) == Err::<
                int,
                i64,
            >((-22) as i64),
        forall|flags: i64|
            3 < flags <= u32::MAX ==> #[trigger] random_len(len, flags) == Err::<int, i64>(
                (-38) as i64,
            ),
        in_bounds(m.len(), p, bytes.len() as int) ==> {
            &&& random_given(m, p, bytes).0 == bytes.len()
            &&& random_given(m, p, bytes).1[k] == (if p <= k < p + bytes.len() {
                bytes[k - p]
            } else {
                m[k]
            })
        },
        !in_bounds(m.len(), p, bytes.len() as int) ==> random_given(m, p, bytes) == (-14int, m),
{
    assert forall|flags: i64| 0 <= flags <= u32::MAX implies ((flags as u32) & !(0x01u32 | 0x02u32)
        != 0) == (#[trigger] (flags as u32) > 3) by {
        let x = flags as u32;
        assert((x & !(0x01u32 | 0x02u32) != 0) == (x > 3)) by (bit_vector);
    }
    assert forall|flags: i64| 0 <= flags <= 3 && 0 <= len <= 4096 implies #[trigger] random_len(
        len,
        flags,
    ) == Ok::<int, i64>(len as int) by {
        let x = flags as u32;
        assert(x <= 3);
    }
}

/// The six names of the system stand in fields of 65 bytes each, in the order of the
/// record, each ended by a zero.
pub proof fn the_names_are_told(m: Seq<u8>, a: [i64; 6], k: int)
    requires
        0 <= k < 65,
    ensures
        ({
            let (r, after) = uname_after(m, a);
            let p = a[0] as int;
            &&& !in_bounds(m.len(), p, 390) ==> r == -14 && after == m
            &&& in_bounds(m.len(), p, 390) ==> {
                &&& r == 0
                &&& after[p + k] == letter("Linux"@, k)
                &&& after[p + 65 + k] == letter("edge-libos"@, k)
                &&& after[p + 130 + k] == letter("6.0.0"@, k)
                &&& after[p + 195 + k] == letter("#1 wasm32"@, k)
                &&& after[p + 260 + k] == letter("wasm32"@, k)
                &&& after[p + 325 + k] == letter("(none)"@, k)
                &&& forall|j: int|
                    0 <= j < m.len() && !(p <= j < p + 390) ==> #[trigger] after[j] == m[j]
            }
        }),
{
    reveal_strlit("Linux");
    reveal_strlit("edge-libos");
    reveal_strlit("6.0.0");
    reveal_strlit("#1 wasm32");
    reveal_strlit("wasm32");
    reveal_strlit("(none)");
    let b = utsname_image();
    assert(b.len() == 390);
    assert(b[k] == uts_field(ascii("Linux"@))[k]);
    assert(b[65 + k] == uts_field(ascii("edge-libos"@))[k]);
    assert(b[130 + k] == uts_field(ascii("6.0.0"@))[k]);
    assert(b[195 + k] == uts_field(ascii("#1 wasm32"@))[k]);
    assert(b[260 + k] == uts_field(ascii("wasm32"@))[k]);
    assert(b[325 + k] == uts_field(ascii("(none)"@))[k]);
}

/// The byte at `k` of a text, and zero behind it.
pub open spec fn letter(s: Seq<char>, k: int) -> u8 {
    if k < s.len() {
        s[k] as u8
    } else {
        0
    }
}

/// No limit is set, neither soft nor hard: both are told as the highest number there is.
/// Only the process itself, 1 or 0, can be asked about.
pub proof fn no_limits_are_told(m: Seq<u8>, pid: i64, p: int)
    ensures
        ({
            let (r, after) = prlimit_after(m, pid, p);
            &&& pid != 0 && pid != 1 ==> r == -1 && after == m
            &&& (pid == 0 || pid == 1) && p == 0 ==> r == 0 && after == m
            &&& (pid == 0 || pid == 1) && p != 0 && !in_bounds(m.len(), p, 16) ==> r == -14 && after
                == m
            &&& (pid == 0 || pid == 1) && p != 0 && in_bounds(m.len(), p, 16) ==> {
                &&& r == 0
                &&& word_at(after, p, 8) == u64::MAX
                &&& word_at(after, p + 8, 8) == u64::MAX
                &&& forall|j: int|
                    0 <= j < m.len() && !(p <= j < p + 16) ==> #[trigger] after[j] == m[j]
            }
        }),
{
    pow256_values();
    le_round_trip(u64::MAX as nat, 8);
    let after = prlimit_after(m, pid, p).1;
    if (pid == 0 || pid == 1) && p != 0 && in_bounds(m.len(), p, 16) {
        assert(window(after, p, 8) =~= le(u64::MAX as nat, 8));
        assert(window(after, p + 8, 8) =~= le(u64::MAX as nat, 8));
    }
}

/// There are no groups to tell: the answer is their number, zero, unless the room for
/// them is negative or has no place.
pub proof fn no_groups_are_told(a: [i64; 6])
    ensures
        a[0] < 0 ==> getgroups_answer(a) == -22,
        a[0] == 0 ==> getgroups_answer(a) == 0,
        a[0] > 0 ==> getgroups_answer(a) == (if a[1] == 0 {
            -95int
        } else {
            0
        }),
{
}

} // verus!
