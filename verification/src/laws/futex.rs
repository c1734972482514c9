//! Waiting on a word of the memory, and waking those who wait.

use vstd::prelude::*;
use crate::bytes::le_len;
use crate::bytes::le_of_value;
use crate::bytes::pow256_values;
use crate::mem::in_bounds;
use crate::mem::window;
use crate::mem::word_at;
use crate::sys::futex::futex_after;
use crate::sys::futex::wait_answer;
use crate::sys::futex::wait_ended;
use crate::sys::futex::FutexModel;
use crate::sys::futex::FutexStep;
use crate::sys::poll::WaitEvent;
use crate::bytes::int64;

verus! {

broadcast use le_len;

/// Whether the arguments name operation `op` on an address that a word can have.
pub open spec fn asks(a: [i64; 6], op: i32) -> bool {
    0 <= a[0] < 0xffff_ffff && (a[1] as i32) & 0x3f == op
}

/// A wait starts exactly where the word at the address is the expected one. One more waits
/// there then, and nobody elsewhere; all who wait on one address wait on one wake object,
/// and on no other's. Where the word is another one, nobody waits.
pub proof fn a_wait_needs_its_value(f: FutexModel, m: Seq<u8>, a: [i64; 6], v: u32)
    requires
        f.wf(),
        f.room(a[0] as u32),
        asks(a, 0),
        in_bounds(m.len(), a[0] as int, 4),
        a[3] == 0,
    ensures
        ({
            let u = a[0] as u32;
            let (step, g) = futex_after(f, m, a);
            &&& word_at(m, a[0] as int, 4) != a[2] ==> step == FutexStep::Done((-11) as i64) && g
                == f
            &&& word_at(m, a[0] as int, 4) == a[2] ==> {
                &&& g.waiters(u) == f.waiters(u) + 1
                &&& v != u ==> g.waiters(v) == f.waiters(v)
                &&& v != u && f.by_addr.contains_key(v) ==> g.by_addr[v] == f.by_addr[v]
                &&& step matches FutexStep::Wait { uaddr, notify, timeout } && {
                    &&& uaddr == u
                    &&& timeout is None
                    &&& notify == g.by_addr[u].notify
                    &&& f.by_addr.contains_key(u) ==> notify == f.by_addr[u].notify
                    &&& !f.by_addr.contains_key(u) && v != u && f.by_addr.contains_key(v)
                        ==> notify != f.by_addr[v].notify
                }
            }
        }),
{
}

/// The time that a wait lasts at most: the nanoseconds of its record, or the highest
/// number there is where they are more. A record that is no time is refused, and nobody
/// waits.
pub proof fn a_wait_lasts_its_time(f: FutexModel, m: Seq<u8>, a: [i64; 6])
    requires
        f.wf(),
        f.room(a[0] as u32),
        asks(a, 0),
        in_bounds(m.len(), a[0] as int, 4),
        word_at(m, a[0] as int, 4) == a[2],
        a[3] != 0,
    ensures
        ({
            let (step, g) = futex_after(f, m, a);
            let sec = int64(word_at(m, a[3] as int, 8));
            let nsec = int64(word_at(m, a[3] + 8, 8));
            let ns = sec * 1_000_000_000 + nsec;
            let inside = in_bounds(m.len(), a[3] as int, 16);
            let fine = 0 <= sec && 0 <= nsec < 1_000_000_000;
            &&& !inside ==> step == FutexStep::Done((-14) as i64) && g == f
            &&& inside && !fine ==> step == FutexStep::Done((-22) as i64) && g == f
            &&& inside && fine ==> {
                &&& g.waiters(a[0] as u32) == f.waiters(a[0] as u32) + 1
                &&& step matches FutexStep::Wait { uaddr, notify, timeout: Some(t) } && uaddr == a[0]
                    && (ns <= u64::MAX ==> t == ns) && (ns > u64::MAX ==> t == u64::MAX)
            }
        }),
{
    pow256_values();
    if in_bounds(m.len(), a[3] as int, 16) {
        le_of_value(window(m, a[3] as int, 8));
        le_of_value(window(m, a[3] + 8, 8));
    }
}

/// A wake reaches those who wait on its address, as many as it is asked for or as wait:
/// they are woken on the wake object that they wait on, and wait no longer. Those who wait
/// elsewhere wait on. The address is read from nowhere: it need not lie in the memory.
pub proof fn a_wake_wakes_waiters(f: FutexModel, m: Seq<u8>, a: [i64; 6], v: u32)
    requires
        f.wf(),
        asks(a, 1),
        i32::MIN <= a[2] <= i32::MAX,
    ensures
        ({
            let u = a[0] as u32;
            let (step, g) = futex_after(f, m, a);
            let n = if a[2] < 0 {
                0
            } else if a[2] < f.waiters(u) {
                a[2] as int
            } else {
                f.waiters(u)
            };
            &&& g.waiters(u) == f.waiters(u) - n
            &&& v != u ==> g.waiters(v) == f.waiters(v)
            &&& f.waiters(u) == 0 ==> step == FutexStep::Done(0)
            &&& f.waiters(u) > 0 ==> step == (FutexStep::Wake {
                notify: f.by_addr[u].notify,
                count: n as u64,
            })
            &&& g.waiters(u) > 0 ==> g.by_addr[u].notify == f.by_addr[u].notify
        }),
{
}

/// A wait that was woken answers zero, and the wake has counted it off. One whose time is
/// over answers -110, one that a signal interrupts -4; each is one waiter less on its
/// address, and none elsewhere.
pub proof fn a_wait_ends(f: FutexModel, u: u32, v: u32)
    requires
        f.wf(),
    ensures
        wait_answer(WaitEvent::Woken) == 0,
        wait_answer(WaitEvent::TimedOut) == -110,
        wait_answer(WaitEvent::Interrupted) == -4,
        wait_ended(f, u, WaitEvent::Woken) == f,
        forall|e: WaitEvent|
            !(e is Woken) ==> (#[trigger] wait_ended(f, u, e)).waiters(u) == (if f.waiters(u) > 0 {
                f.waiters(u) - 1
            } else {
                0
            }),
        forall|e: WaitEvent|
            u != v ==> (#[trigger] wait_ended(f, u, e)).waiters(v) == f.waiters(v),
{
}

/// An address that no word can have is refused, a word outside of the memory cannot be
/// waited on, and no other operation is known.
pub proof fn a_futex_is_refused(f: FutexModel, m: Seq<u8>, a: [i64; 6])
    ensures
        !(0 <= a[0] < 0xffff_ffff) ==> futex_after(f, m, a) == (FutexStep::Done((-22) as i64), f),
        asks(a, 0) && !in_bounds(m.len(), a[0] as int, 4) ==> futex_after(f, m, a) == (
            FutexStep::Done((-14) as i64),
            f,
        ),
        0 <= a[0] < 0xffff_ffff && !asks(a, 0) && !asks(a, 1) ==> futex_after(f, m, a) == (
            FutexStep::Done((-38) as i64),
            f,
        ),
{
}

/// The flags beside an operation, 0x80 and 0x100, do not matter.
pub proof fn futex_flags_do_not_matter(f: FutexModel, m: Seq<u8>, a: [i64; 6], b: [i64; 6])
    requires
        b[0] == a[0] && b[2] == a[2] && b[3] == a[3],
        b[1] == a[1] | 0x80 || b[1] == a[1] | 0x100 || b[1] == a[1] | 0x180,
    ensures
        futex_after(f, m, b) == futex_after(f, m, a),
{
    let x = a[1];
    assert(((x | 0x80) as i32) & 0x3f == (x as i32) & 0x3f && ((x | 0x100) as i32) & 0x3f == (
    x as i32) & 0x3f && ((x | 0x180) as i32) & 0x3f == (x as i32) & 0x3f) by (bit_vector);
}

} // verus!
