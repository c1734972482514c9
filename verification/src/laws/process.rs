//! Processes: fork, clone, exit, wait and names.

use vstd::prelude::*;
use crate::bytes::le_len;
use crate::bytes::le_round_trip;
use crate::bytes::pow256_values;
use crate::bytes::word32;
use crate::errno::ECHILD;
use crate::errno::EFAULT;
use crate::errno::EINVAL;
use crate::errno::ESRCH;
use crate::mem::in_bounds;
use crate::mem::splice_reads_back;
use crate::mem::window;
use crate::mem::word_at;
use crate::sys::process::clone_after;
use crate::sys::process::exited_with;
use crate::sys::process::forked;
use crate::sys::process::kill_after;
use crate::sys::process::prctl_after;
use crate::sys::process::sched_getaffinity_after;
use crate::sys::process::tgkill_after;
use crate::sys::process::wait4_after;
use crate::sys::process::wait4_event_after;
use crate::sys::process::wait4_tick_after;
use crate::sys::process::ProcessModel;
use crate::sys::process::WaitAfter;
use crate::sys::process::WaitStep;

verus! {

broadcast use le_len;

/// Whether `i` is the place of a child that has ended and that a wait for `pid` takes:
/// the one with that number, or the first that came where `pid` asks for any.
pub open spec fn takes(p: ProcessModel, pid: i64, i: int) -> bool {
    &&& 0 <= i < p.children.len()
    &&& p.children[i].1.exited
    &&& pid > 0 ==> p.children[i].0 == pid as i32
    &&& pid <= 0 ==> forall|j: int| 0 <= j < i ==> !(#[trigger] p.children[j]).1.exited
}

/// Whether a child with the number `pid` is there.
pub open spec fn is_parent_of(p: ProcessModel, pid: i32) -> bool {
    exists|i: int| 0 <= i < p.children.len() && (#[trigger] p.children[i]).0 == pid
}

/// Whether a wait ended by taking the child at `i`: the answer is its number, it is no
/// longer there while the others are, and where the address `ptr` is not zero the word
/// there is the low byte of its exit code times 256, and nothing else has changed.
pub open spec fn took(p: ProcessModel, m: Seq<u8>, ptr: i64, i: int, w: WaitAfter) -> bool {
    let (pid, st) = p.children[i];
    let told = ptr != 0 && in_bounds(m.len(), ptr as int, 4);
    &&& w.step == WaitStep::Done(
        if ptr != 0 && !told {
            (-EFAULT) as i64
        } else {
            pid as i64
        },
    )
    &&& w.process.children.len() == p.children.len() - 1
    &&& forall|j: int| 0 <= j < i ==> #[trigger] w.process.children[j] == p.children[j]
    &&& forall|j: int|
        i <= j < p.children.len() - 1 ==> #[trigger] w.process.children[j] == p.children[j + 1]
    &&& w.process.next_pid == p.next_pid && w.process.exit_code == p.exit_code
        && w.process.signals_pending == p.signals_pending && w.process.comm == p.comm
    &&& told ==> word_at(w.mem, ptr as int, 4) == (st.exit_code as int % 256) * 256
    &&& w.mem.len() == m.len()
    &&& forall|k: int|
        0 <= k < m.len() && !(told && ptr <= k < ptr + 4) ==> #[trigger] w.mem[k] == m[k]
}

proof fn low_byte(code: i32)
    ensures
        code & 0xff == code as int % 256,
        0 <= code & 0xff < 256,
{
    assert(0 <= code & 0xff < 256) by (bit_vector);
    if code >= 0 {
        assert(code >= 0 ==> code & 0xff == code % 256) by (bit_vector);
    } else {
        let up: u32 = (code + 0x1_0000_0000) as u32;
        assert(code < 0 ==> code & 0xff == ((code + 0x1_0000_0000) as u32) % 256) by (bit_vector);
        assert(up as int % 256 == code as int % 256);
    }
}

/// A child that ended and a wait for it, whichever of its three steps finds it, and
/// whether or not the call had to wait: the child is taken and its status told.
proof fn taken_child(p: ProcessModel, m: Seq<u8>, pid: i64, ptr: i64, i: int)
    requires
        p.wf(),
        takes(p, pid, i),
        pid <= i32::MAX,
    ensures
        crate::sys::process::reapable(p.children, pid) == Some(i),
        took(p, m, ptr, i, crate::sys::process::wait_takes(p, m, pid, ptr as int)),
{
    let s = p.children;
    if pid > 0 {
        assert(crate::sys::process::has_child(s, pid as i32));
        let k = crate::sys::process::child_index(s, pid as i32);
        assert(0 <= k < s.len() && s[k].0 == pid as i32);
        if k < i {
            assert(s[k].0 != s[i].0);
        }
        if i < k {
            assert(s[i].0 != s[k].0);
        }
    } else {
        assert(crate::sys::process::first_exited(s, i));
        let k = choose|k: int| crate::sys::process::first_exited(s, k);
        if k < i {
            assert(!s[k].1.exited);
        }
        if i < k {
            assert(!s[i].1.exited);
        }
    }
    let (id, st) = s[i];
    low_byte(st.exit_code);
    let status = crate::sys::process::wait_status(st.exit_code);
    assert(0 <= status < 65536);
    let b = crate::bytes::le(word32(status), 4);
    pow256_values();
    le_round_trip(word32(status), 4);
    if ptr != 0 && in_bounds(m.len(), ptr as int, 4) {
        splice_reads_back(m, ptr as int, b);
    }
}

/// A wait takes a child that has ended. All its steps do: the call itself, a later look
/// and a child's event.
pub proof fn ended_children_are_reaped(
    p: ProcessModel,
    m: Seq<u8>,
    a: [i64; 6],
    looked: u32,
    i: int,
)
    requires
        p.wf(),
        takes(p, a[0], i),
        -1 <= a[0] <= i32::MAX,
    ensures
        (a[2] as i32) & !0x40 == 0 ==> took(p, m, a[1], i, wait4_after(p, m, a)),
        a[0] > 0 ==> took(p, m, a[1], i, wait4_tick_after(p, m, a, looked)),
        took(p, m, a[1], i, wait4_event_after(p, m, a)),
{
    taken_child(p, m, a[0], a[1], i);
    assert(p.children.len() > 0);
    if a[0] > 0 {
        assert(crate::sys::process::has_child(p.children, a[0] as i32));
    }
}

/// While no child that a wait asks for has ended, nothing is taken and nothing is
/// written. With the option 0x40 the answer is zero; otherwise the wait goes on, for one
/// child by looking again, for any by waiting for an event. Without such a child at all
/// the wait fails, and so it does for a child that has not ended after 10000 looks.
pub proof fn running_children_are_waited_for(p: ProcessModel, m: Seq<u8>, a: [i64; 6], looked: u32)
    requires
        p.wf(),
        -1 <= a[0] <= i32::MAX,
        forall|i: int| !#[trigger] takes(p, a[0], i),
    ensures
        ({
            let w = wait4_after(p, m, a);
            let t = wait4_tick_after(p, m, a, looked);
            let e = wait4_event_after(p, m, a);
            let options = a[2] as i32;
            let none = p.children.len() == 0 || (a[0] > 0 && !is_parent_of(p, a[0] as i32));
            &&& w.process == p && w.mem == m
            &&& t.process == p && t.mem == m
            &&& e.process == p && e.mem == m
            &&& options & !0x40 != 0 ==> w.step == WaitStep::Done((-EINVAL) as i64)
            &&& options & !0x40 == 0 && none ==> w.step == WaitStep::Done((-ECHILD) as i64)
            &&& options & !0x40 == 0 && !none && options & 0x40 != 0 ==> w.step == WaitStep::Done(0)
            &&& options & !0x40 == 0 && !none && options & 0x40 == 0 ==> w.step == (if a[0] > 0 {
                WaitStep::Tick { looked: 0 }
            } else {
                WaitStep::ChildEvent
            })
            &&& a[0] > 0 ==> t.step == (if none || looked >= 10_000 {
                WaitStep::Done((-ECHILD) as i64)
            } else {
                WaitStep::Tick { looked: (looked + 1) as u32 }
            })
            &&& e.step == WaitStep::ChildEvent
        }),
{
    let s = p.children;
    if crate::sys::process::reapable(s, a[0]) is Some {
        if a[0] > 0 {
            let k = crate::sys::process::child_index(s, a[0] as i32);
            assert(0 <= k < s.len() && s[k].0 == a[0] as i32);
            assert(takes(p, a[0], k));
        } else {
            let k = choose|k: int| crate::sys::process::first_exited(s, k);
            assert(crate::sys::process::first_exited(s, k));
            assert(takes(p, a[0], k));
        }
    }
    if a[0] > 0 {
        assert(is_parent_of(p, a[0] as i32) == crate::sys::process::has_child(s, a[0] as i32));
    }
}

/// A wait for a group of children, with a number below minus one, is refused.
pub proof fn groups_are_not_waited_for(p: ProcessModel, m: Seq<u8>, a: [i64; 6])
    requires
        a[0] < -1,
    ensures
        wait4_after(p, m, a).step == WaitStep::Done((-EINVAL) as i64),
        wait4_after(p, m, a).process == p && wait4_after(p, m, a).mem == m,
{
}

/// A fork gives the next number to a child that has not ended; the children before it
/// stay, and the next fork gives another number, one higher.
pub proof fn a_fork_adds_one_child(p: ProcessModel, pid: i32)
    requires
        p.wf(),
        !is_parent_of(p, p.next_pid),
        p.next_pid < i32::MAX,
    ensures
        ({
            let q = forked(p);
            &&& q.children.len() == p.children.len() + 1
            &&& q.children.last().0 == p.next_pid
            &&& !q.children.last().1.exited
            &&& q.children.last().1.exit_code == 0
            &&& forall|i: int|
                0 <= i < p.children.len() ==> #[trigger] q.children[i] == p.children[i]
            &&& q.next_pid == p.next_pid + 1
            &&& q.exit_code == p.exit_code && q.signals_pending == p.signals_pending && q.comm
                == p.comm
        }),
{
    assert(is_parent_of(p, p.next_pid) == crate::sys::process::has_child(p.children, p.next_pid));
}

/// An exit records its code, the low 32 bits of the argument, and ends every child with
/// the code it has; a wait for any of them then takes it.
pub proof fn an_exit_ends_every_child(p: ProcessModel, code: i32, i: int)
    requires
        0 <= i < p.children.len(),
    ensures
        exited_with(p, code).exit_code == Some(code),
        exited_with(p, code).children.len() == p.children.len(),
        exited_with(p, code).children[i].0 == p.children[i].0,
        exited_with(p, code).children[i].1.exited,
        exited_with(p, code).children[i].1.exit_code == p.children[i].1.exit_code,
        exited_with(p, code).next_pid == p.next_pid,
        exited_with(p, code).comm == p.comm,
        exited_with(p, code).signals_pending == p.signals_pending,
{
}

/// A clone gives the next number, and tells it to the parent at the third argument where
/// the flags hold 0x8000000, and to the child at the fourth where they hold 0x1000000.
/// It needs one of these two, and takes no flag but these, 0x100 and 0x10000. It makes no
/// child that can be waited for.
pub proof fn a_clone_tells_its_number(p: ProcessModel, m: Seq<u8>, a: [i64; 6])
    requires
        0 <= p.next_pid < i32::MAX,
        !(a[0] & 0x800_0000 != 0 && a[0] & 0x100_0000 != 0) || a[2] + 4 <= a[3] || a[3] + 4 <= a[2],
    ensures
        ({
            let (r, q, after) = clone_after(p, m, a);
            let parent = a[0] & 0x800_0000 != 0;
            let child = a[0] & 0x100_0000 != 0;
            let known = a[0] & !(0x900_0000i64 | 0x1_0100i64) == 0;
            let fits = (parent ==> in_bounds(m.len(), a[2] as int, 4)) && (child ==> in_bounds(
                m.len(),
                a[3] as int,
                4,
            ));
            &&& q.children == p.children && q.exit_code == p.exit_code && q.comm == p.comm
                && q.signals_pending == p.signals_pending
            &&& !known || (!parent && !child) ==> r == -EINVAL && q == p && after == m
            &&& known && (parent || child) ==> q.next_pid == p.next_pid + 1
            &&& known && (parent || child) && !fits ==> r == -EFAULT
            &&& known && (parent || child) && fits ==> {
                &&& r == p.next_pid
                &&& parent ==> word_at(after, a[2] as int, 4) == p.next_pid
                &&& child ==> word_at(after, a[3] as int, 4) == p.next_pid
                &&& after.len() == m.len()
                &&& forall|k: int|
                    0 <= k < m.len() && !(parent && a[2] <= k < a[2] + 4) && !(child && a[3] <= k
                        < a[3] + 4) ==> #[trigger] after[k] == m[k]
            }
        }),
{
    let flags = a[0];
    assert(0x100_0000i64 | 0x800_0000i64 == 0x900_0000i64) by (bit_vector);
    assert((0x100_0000i64 | 0x800_0000i64 | 0x100i64 | 0x1_0000i64) == (0x900_0000i64 | 0x1_0100i64))
        by (bit_vector);
    assert(flags & (0x100_0000i64 | 0x800_0000i64) == 0 <==> (flags & 0x800_0000 == 0 && flags
        & 0x100_0000 == 0)) by (bit_vector);
    let b = crate::bytes::le(word32(p.next_pid), 4);
    pow256_values();
    le_round_trip(word32(p.next_pid), 4);
    let (r, q, after) = clone_after(p, m, a);
    if r >= 0 {
        if flags & 0x800_0000 != 0 {
            assert(window(after, a[2] as int, 4) =~= b);
        }
        if flags & 0x100_0000 != 0 {
            assert(window(after, a[3] as int, 4) =~= b);
        }
    }
}

/// A signal that is sent to the guest, as process zero or one, is queued behind the
/// others; a number outside of 0 to 64 is refused, and so is any other process.
pub proof fn sent_signals_are_queued(p: ProcessModel, a: [i64; 6])
    ensures
        ({
            let (r, q) = kill_after(p, a);
            let me = a[0] == 0 || a[0] == 1;
            &&& !me ==> r == -ESRCH && q == p
            &&& me && !(0 <= a[1] <= 64) ==> r == -EINVAL && q == p
            &&& me && 0 <= a[1] <= 64 ==> r == 0 && q.signals_pending.len()
                == p.signals_pending.len() + 1 && q.signals_pending.last() == a[1]
                && q.signals_pending.drop_last() == p.signals_pending && q.children == p.children
                && q.exit_code == p.exit_code && q.next_pid == p.next_pid && q.comm == p.comm
        }),
        ({
            let (r, q) = tgkill_after(p, a);
            let me = (a[0] == 0 || a[0] == 1) && (a[1] == 0 || a[1] == 1);
            &&& !me ==> r == -ESRCH && q == p
            &&& me && !(0 <= a[2] <= 64) ==> r == -EINVAL && q == p
            &&& me && 0 <= a[2] <= 64 ==> r == 0 && q.signals_pending.len()
                == p.signals_pending.len() + 1 && q.signals_pending.last() == a[2]
                && q.signals_pending.drop_last() == p.signals_pending && q.children == p.children
                && q.exit_code == p.exit_code && q.next_pid == p.next_pid && q.comm == p.comm
        }),
{
    assert(kill_after(p, a).0 == 0 ==> kill_after(p, a).1.signals_pending.drop_last()
        =~= p.signals_pending);
    assert(tgkill_after(p, a).0 == 0 ==> tgkill_after(p, a).1.signals_pending.drop_last()
        =~= p.signals_pending);
}

/// The guest runs on one processor: the mask has the lowest bit alone, in as many of its
/// first eight bytes as there is room for, and the answer is their number.
pub proof fn one_processor_is_told(m: Seq<u8>, a: [i64; 6])
    ensures
        ({
            let (r, after) = sched_getaffinity_after(m, a);
            let me = a[0] == 0 || a[0] == 1;
            let n: int = if a[1] >= 8 {
                8
            } else {
                a[1] as int
            };
            &&& !me ==> r == -ESRCH && after == m
            &&& me && a[1] <= 0 ==> r == -EINVAL && after == m
            &&& me && a[1] > 0 && !in_bounds(m.len(), a[2] as int, n) ==> r == -EFAULT && after == m
            &&& me && a[1] > 0 && in_bounds(m.len(), a[2] as int, n) ==> {
                &&& r == n
                &&& after.len() == m.len()
                &&& after[a[2] as int] == 1
                &&& forall|k: int| a[2] < k < a[2] + n ==> #[trigger] after[k] == 0
                &&& forall|k: int|
                    0 <= k < m.len() && !(a[2] <= k < a[2] + n) ==> #[trigger] after[k] == m[k]
            }
        }),
{
}

/// A name that was set (option 15) is kept up to its first zero byte, sixteen bytes at
/// most, and the rest of the sixteen is zero; getting it (option 16) writes those sixteen
/// bytes.
pub proof fn a_name_is_kept(p: ProcessModel, m: Seq<u8>, a: [i64; 6], n: int, i: int)
    requires
        a[1] != 0,
        in_bounds(m.len(), a[1] as int, 16),
        0 <= n <= 16,
        forall|k: int| a[1] <= k < a[1] + n ==> #[trigger] m[k] != 0,
        n < 16 ==> m[a[1] + n] == 0,
        0 <= i < 16,
    ensures
        a[0] as i32 == 15 ==> {
            let (r, q, after) = prctl_after(p, m, a);
            &&& r == 0
            &&& after == m
            &&& q.comm.len() == 16
            &&& q.comm[i] == (if i < n {
                m[a[1] + i]
            } else {
                0u8
            })
            &&& q.children == p.children && q.exit_code == p.exit_code && q.next_pid == p.next_pid
                && q.signals_pending == p.signals_pending
        },
        a[0] as i32 == 16 && p.comm.len() == 16 ==> {
            let (r, q, after) = prctl_after(p, m, a);
            &&& r == 0
            &&& q == p
            &&& after[a[1] + i] == p.comm[i]
            &&& after.len() == m.len()
            &&& forall|k: int|
                0 <= k < m.len() && !(a[1] <= k < a[1] + 16) ==> #[trigger] after[k] == m[k]
        },
{
    let b = window(m, a[1] as int, 16);
    assert forall|j: int| 0 <= j < n implies #[trigger] b[j] != 0 by {
        assert(m[a[1] + j] != 0);
    }
    if n < 16 {
        assert(b[n] == 0);
    }
}

/// The other options of `prctl`: a new privilege is never gained (39), which cannot be
/// changed (38), no core is dumped (3, 4), and no other is known. A name needs a place.
pub proof fn other_options_change_nothing(p: ProcessModel, m: Seq<u8>, a: [i64; 6])
    requires
        i32::MIN <= a[0] <= i32::MAX,
    ensures
        ({
            let (r, q, after) = prctl_after(p, m, a);
            let name = a[0] == 15 || a[0] == 16;
            &&& a[0] == 39 ==> r == 1
            &&& a[0] == 38 || a[0] == 3 || a[0] == 4 ==> r == 0
            &&& !name && a[0] != 39 && a[0] != 38 && a[0] != 3 && a[0] != 4 ==> r == -22
            &&& name && a[1] == 0 ==> r == -22
            &&& name && a[1] != 0 && !in_bounds(m.len(), a[1] as int, 16) ==> r == -14
            &&& !name || a[1] == 0 || !in_bounds(m.len(), a[1] as int, 16) ==> q == p && after == m
        }),
{
}

} // verus!
