//! Futexes: waiting for a word of memory to change, and waking those who wait.
//!
//! A waiter parks on a numbered wake object that the host keeps. The table holds, for
//! each address that is waited on, the wake object and the number of waiters.

use std::collections::HashMap;
use vstd::prelude::*;
use crate::bytes::pow256_values;
use crate::errno::EAGAIN;
use crate::errno::EFAULT;
use crate::errno::EINTR;
use crate::errno::EINVAL;
use crate::errno::ENOSYS;
use crate::errno::ETIMEDOUT;
use crate::mem::guest_word;
use crate::mem::in_bounds;
use crate::mem::word_at;
use crate::sys::poll::int64_at;
use crate::sys::poll::int64_pair;
use crate::sys::poll::WaitEvent;

verus! {

broadcast use vstd::std_specs::hash::group_hash_axioms;

pub const NR_FUTEX: u32 = 202;

pub const FUTEX_WAIT: i32 = 0;
pub const FUTEX_WAKE: i32 = 1;

/// Flags beside the operation; neither has an effect.
pub const FUTEX_PRIVATE_FLAG: i32 = 0x80;
pub const FUTEX_CLOCK_REALTIME: i32 = 0x100;

/// The bits of the operation without its flags.
pub const FUTEX_CMD_MASK: i32 = 0x3f;

/// The one address that no futex can have.
pub const INVALID_FUTEX_ADDR: u32 = 0xFFFF_FFFF;

pub const TIMESPEC_SIZE: i64 = 16;
pub const TIMESPEC_SEC_OFF: usize = 0;
pub const TIMESPEC_NSEC_OFF: usize = 8;

/// Who waits on one address: the number of the wake object, and how many waiters.
#[derive(Clone, Copy, PartialEq, Eq, Structural, Debug)]
pub struct FutexEntry {
    pub notify: u64,
    pub waiters: u64,
}

/// Who waits on which address.
pub struct FutexTable {
    pub by_addr: HashMap<u32, FutexEntry>,
    /// The number of the next wake object.
    pub next_notify: u64,
}

#[verifier::ext_equal]
pub struct FutexModel {
    pub by_addr: Map<u32, FutexEntry>,
    pub next_notify: u64,
}

impl View for FutexTable {
    type V = FutexModel;

    open spec fn view(&self) -> FutexModel {
        FutexModel { by_addr: self.by_addr@, next_notify: self.next_notify }
    }
}

impl FutexModel {
    /// No address is kept without a waiter.
    pub open spec fn wf(self) -> bool {
        forall|u: u32| #[trigger]
            self.by_addr.contains_key(u) ==> self.by_addr[u].waiters > 0 && self.by_addr[u].notify
                < self.next_notify
    }

    /// How many wait on the address.
    pub open spec fn waiters(self, u: u32) -> int {
        if self.by_addr.contains_key(u) {
            self.by_addr[u].waiters as int
        } else {
            0
        }
    }

    /// Whether one more can be counted on the address.
    pub open spec fn room(self, u: u32) -> bool {
        self.waiters(u) < u64::MAX && self.next_notify < u64::MAX
    }

    /// With one more waiter on the address, on a new wake object where it is the first.
    pub open spec fn parked(self, u: u32) -> FutexModel {
        if self.by_addr.contains_key(u) {
            let e = self.by_addr[u];
            FutexModel {
                by_addr: self.by_addr.insert(
                    u,
                    FutexEntry { notify: e.notify, waiters: (e.waiters + 1) as u64 },
                ),
                ..self
            }
        } else {
            FutexModel {
                by_addr: self.by_addr.insert(
                    u,
                    FutexEntry { notify: self.next_notify, waiters: 1 },
                ),
                next_notify: (self.next_notify + 1) as u64,
            }
        }
    }

    /// With `n` waiters fewer on the address. It goes with its last waiter.
    pub open spec fn fewer(self, u: u32, n: int) -> FutexModel {
        if !self.by_addr.contains_key(u) {
            self
        } else if n >= self.by_addr[u].waiters {
            FutexModel { by_addr: self.by_addr.remove(u), ..self }
        } else {
            let e = self.by_addr[u];
            FutexModel {
                by_addr: self.by_addr.insert(
                    u,
                    FutexEntry { notify: e.notify, waiters: (e.waiters - n) as u64 },
                ),
                ..self
            }
        }
    }
}

impl Default for FutexTable {
    fn default() -> (r: FutexTable)
        ensures
            r@ == (FutexModel { by_addr: Map::empty(), next_notify: 0 }),
            r@.wf(),
    {
        let r: FutexTable = FutexTable { by_addr: HashMap::new(), next_notify: 0 };
        assert(r@ =~= FutexModel { by_addr: Map::empty(), next_notify: 0 });
        r
    }
}

/// What is left to do of a `futex` call.
#[derive(Clone, Copy, PartialEq, Eq, Structural, Debug)]
pub enum FutexStep {
    Done(i64),
    /// Wait on the wake object, for so many nanoseconds or for as long as it takes,
    /// and go on with `futex_woken`.
    Wait { uaddr: u32, notify: u64, timeout: Option<u64> },
    /// Wake so many of those who wait on the wake object; the answer is their number.
    Wake { notify: u64, count: u64 },
}

/// `n`, or the largest 64-bit number where that is less.
pub open spec fn capped_u64(n: int) -> u64 {
    if n > u64::MAX {
        u64::MAX
    } else {
        n as u64
    }
}

/// The nanoseconds that the `struct timespec` at `ptr` stands for. A time too long to
/// count is the longest that can be counted.
pub open spec fn timespec_ns(m: Seq<u8>, ptr: int) -> Result<u64, i64> {
    let sec = int64_at(m, ptr);
    let nsec = int64_at(m, ptr + 8);
    if !in_bounds(m.len(), ptr, 16) {
        Err((-EFAULT) as i64)
    } else if nsec < 0 || nsec >= 1_000_000_000 || sec < 0 {
        Err((-EINVAL) as i64)
    } else {
        Ok(capped_u64(capped_u64(sec * 1_000_000_000) + nsec))
    }
}

/// The nanoseconds that the `struct timespec` at `ptr` stands for.
pub fn decode_timespec(mem: &[u8], ptr: i64) -> (r: Result<u64, i64>)
    ensures
        r == timespec_ns(mem@, ptr as int),
{
    match int64_pair(mem, ptr) {
        Err(e) => Err(e),
        Ok((sec, nsec)) => {
            if nsec < 0 || nsec >= 1_000_000_000 || sec < 0 {
                return Err(-EINVAL);
            }
            let s: u64 = sec as u64;
            let whole: u64 = if s > u64::MAX / 1_000_000_000 {
                u64::MAX
            } else {
                s * 1_000_000_000
            };
            if nsec as u64 > u64::MAX - whole {
                Ok(u64::MAX)
            } else {
                Ok(whole + nsec as u64)
            }
        },
    }
}

/// What `FUTEX_WAIT` does: it waits only if the word at the address is `val`.
pub open spec fn futex_wait_after(f: FutexModel, m: Seq<u8>, u: u32, val: i64, timeout: int) -> (
    FutexStep,
    FutexModel,
) {
    if !in_bounds(m.len(), u as int, 4) {
        (FutexStep::Done((-EFAULT) as i64), f)
    } else if word_at(m, u as int, 4) != val {
        (FutexStep::Done((-EAGAIN) as i64), f)
    } else if timeout != 0 && timespec_ns(m, timeout) is Err {
        (FutexStep::Done(timespec_ns(m, timeout)->Err_0), f)
    } else {
        (
            FutexStep::Wait {
                uaddr: u,
                notify: f.parked(u).by_addr[u].notify,
                timeout: if timeout == 0 {
                    None
                } else {
                    Some(timespec_ns(m, timeout)->Ok_0)
                },
            },
            f.parked(u),
        )
    }
}

/// How many `FUTEX_WAKE` wakes on the address when asked for `val`.
pub open spec fn woken(f: FutexModel, u: u32, val: i32) -> int {
    if val < 0 {
        0
    } else if val < f.waiters(u) {
        val as int
    } else {
        f.waiters(u)
    }
}

/// What `FUTEX_WAKE` does.
pub open spec fn futex_wake_after(f: FutexModel, u: u32, val: i32) -> (FutexStep, FutexModel) {
    if f.by_addr.contains_key(u) {
        (
            FutexStep::Wake { notify: f.by_addr[u].notify, count: woken(f, u, val) as u64 },
            f.fewer(u, woken(f, u, val)),
        )
    } else {
        (FutexStep::Done(0), f)
    }
}

/// What `futex` does.
pub open spec fn futex_after(f: FutexModel, m: Seq<u8>, a: [i64; 6]) -> (FutexStep, FutexModel) {
    let cmd = (a[1] as i32) & FUTEX_CMD_MASK;
    if !(0 <= a[0] < INVALID_FUTEX_ADDR) {
        (FutexStep::Done((-EINVAL) as i64), f)
    } else if cmd == FUTEX_WAIT {
        futex_wait_after(f, m, a[0] as u32, a[2], a[3] as int)
    } else if cmd == FUTEX_WAKE {
        futex_wake_after(f, a[0] as u32, a[2] as i32)
    } else {
        (FutexStep::Done((-ENOSYS) as i64), f)
    }
}

/// Count one more waiter on the address, and give its wake object.
fn park(t: &mut FutexTable, u: u32) -> (r: u64)
    requires
        old(t)@.wf(),
        old(t)@.room(u),
    ensures
        final(t)@ == old(t)@.parked(u),
        r == final(t)@.by_addr[u].notify,
        final(t)@.wf(),
{
    match t.by_addr.get(&u) {
        Some(e) => {
            let notify: u64 = e.notify;
            let waiters: u64 = e.waiters + 1;
            t.by_addr.insert(u, FutexEntry { notify, waiters });
            assert(t@ =~= old(t)@.parked(u));
            notify
        },
        None => {
            let notify: u64 = t.next_notify;
            t.by_addr.insert(u, FutexEntry { notify, waiters: 1 });
            t.next_notify = notify + 1;
            assert(t@ =~= old(t)@.parked(u));
            notify
        },
    }
}

/// Count `n` waiters fewer on the address.
fn unpark(t: &mut FutexTable, u: u32, n: u64)
    requires
        old(t)@.wf(),
    ensures
        final(t)@ == old(t)@.fewer(u, n as int),
        final(t)@.wf(),
{
    match t.by_addr.get(&u) {
        Some(e) => {
            if n >= e.waiters {
                let _ = t.by_addr.remove(&u);
                assert(t@ =~= old(t)@.fewer(u, n as int));
            } else {
                let notify: u64 = e.notify;
                let waiters: u64 = e.waiters - n;
                t.by_addr.insert(u, FutexEntry { notify, waiters });
                assert(t@ =~= old(t)@.fewer(u, n as int));
            }
        },
        None => {},
    }
}

/// Take one waiter off the address, which goes with its last waiter. This is for a
/// waiter that leaves without having been woken: a wake counts off those it wakes.
pub fn release_waiter(t: &mut FutexTable, uaddr: u32)
    requires
        old(t)@.wf(),
    ensures
        final(t)@ == old(t)@.fewer(uaddr, 1),
        final(t)@.wf(),
{
    unpark(t, uaddr, 1);
}

/// `FUTEX_WAIT`: wait for a wake on the address, if the word there is `val`.
pub fn futex_wait(t: &mut FutexTable, mem: &[u8], uaddr: u32, val: i64, timeout_ptr: i64) -> (r:
    FutexStep)
    requires
        old(t)@.wf(),
        old(t)@.room(uaddr),
    ensures
        (r, final(t)@) == futex_wait_after(old(t)@, mem@, uaddr, val, timeout_ptr as int),
        final(t)@.wf(),
{
    proof {
        pow256_values();
    }
    let current: u64 = match guest_word(mem, uaddr as i64, 4) {
        Ok(w) => w,
        Err(e) => {
            return FutexStep::Done(e);
        },
    };
    if current as i64 != val {
        return FutexStep::Done(-EAGAIN);
    }
    let timeout: Option<u64> = if timeout_ptr == 0 {
        None
    } else {
        match decode_timespec(mem, timeout_ptr) {
            Ok(t) => Some(t),
            Err(e) => {
                return FutexStep::Done(e);
            },
        }
    };
    let notify: u64 = park(t, uaddr);
    FutexStep::Wait { uaddr, notify, timeout }
}

/// `FUTEX_WAKE`: wake up to `val` of those who wait on the address.
pub fn futex_wake(t: &mut FutexTable, uaddr: u32, val: i32) -> (r: FutexStep)
    requires
        old(t)@.wf(),
    ensures
        (r, final(t)@) == futex_wake_after(old(t)@, uaddr, val),
        final(t)@.wf(),
{
    match t.by_addr.get(&uaddr) {
        Some(e) => {
            let notify: u64 = e.notify;
            let asked: u64 = if val < 0 {
                0
            } else {
                val as u64
            };
            let count: u64 = if asked < e.waiters {
                asked
            } else {
                e.waiters
            };
            unpark(t, uaddr, count);
            FutexStep::Wake { notify, count }
        },
        None => FutexStep::Done(0),
    }
}

/// `futex(uaddr, op, val, timeout, ..)`.
pub fn futex(t: &mut FutexTable, mem: &[u8], a: [i64; 6]) -> (r: FutexStep)
    requires
        old(t)@.wf(),
        0 <= a[0] <= u32::MAX ==> old(t)@.room(a[0] as u32),
    ensures
        (r, final(t)@) == futex_after(old(t)@, mem@, a),
        final(t)@.wf(),
{
    if a[0] < 0 || a[0] >= INVALID_FUTEX_ADDR as i64 {
        return FutexStep::Done(-EINVAL);
    }
    let uaddr: u32 = a[0] as u32;
    let cmd: i32 = (a[1] as i32) & FUTEX_CMD_MASK;
    if cmd == FUTEX_WAIT {
        futex_wait(t, mem, uaddr, a[2], a[3])
    } else if cmd == FUTEX_WAKE {
        futex_wake(t, uaddr, a[2] as i32)
    } else {
        FutexStep::Done(-ENOSYS)
    }
}

/// What a wait returns when it ends.
pub open spec fn wait_answer(e: WaitEvent) -> int {
    match e {
        WaitEvent::Woken => 0,
        WaitEvent::TimedOut => -ETIMEDOUT,
        WaitEvent::Interrupted => -EINTR,
    }
}

/// The table after a wait on the address has ended. Whoever was woken has been counted
/// off by the wake; whoever leaves on its own is counted off now.
pub open spec fn wait_ended(f: FutexModel, u: u32, e: WaitEvent) -> FutexModel {
    if e is Woken {
        f
    } else {
        f.fewer(u, 1)
    }
}

/// Go on with a `FUTEX_WAIT` whose wait has ended.
pub fn futex_woken(t: &mut FutexTable, uaddr: u32, e: WaitEvent) -> (r: i64)
    requires
        old(t)@.wf(),
    ensures
        r == wait_answer(e),
        final(t)@ == wait_ended(old(t)@, uaddr, e),
        final(t)@.wf(),
{
    match e {
        WaitEvent::Woken => 0,
        WaitEvent::TimedOut => {
            release_waiter(t, uaddr);
            -ETIMEDOUT
        },
        WaitEvent::Interrupted => {
            release_waiter(t, uaddr);
            -EINTR
        },
    }
}

/// The table after `n` waits on the address, all of them woken, have ended.
pub open spec fn woken_waits_ended(f: FutexModel, u: u32, n: nat) -> FutexModel
    decreases n,
{
    if n == 0 {
        f
    } else {
        wait_ended(woken_waits_ended(f, u, (n - 1) as nat), u, WaitEvent::Woken)
    }
}

proof fn woken_waits_change_nothing(f: FutexModel, u: u32, n: nat)
    ensures
        woken_waits_ended(f, u, n) == f,
    decreases n,
{
    if n > 0 {
        woken_waits_change_nothing(f, u, (n - 1) as nat);
    }
}

/// After a wake, and however many of the woken waits have ended since, those still wait
/// whom it did not wake, and a further wake finds them: it wakes as many of them as it is
/// asked for, on the wake object that they wait on.
pub proof fn wakes_reach_every_waiter(f: FutexModel, u: u32, val: i32, n: nat, more: i32)
    requires
        f.wf(),
        n <= woken(f, u, val),
    ensures
        ({
            let g = woken_waits_ended(futex_wake_after(f, u, val).1, u, n);
            let left = f.waiters(u) - woken(f, u, val);
            &&& g.waiters(u) == left
            &&& woken(g, u, more) == (if more < 0 {
                0
            } else if more < left {
                more as int
            } else {
                left
            })
            &&& left > 0 ==> futex_wake_after(g, u, more).0 == (FutexStep::Wake {
                notify: f.by_addr[u].notify,
                count: woken(g, u, more) as u64,
            })
            &&& left == 0 ==> futex_wake_after(g, u, more).0 == FutexStep::Done(0)
        }),
{
    woken_waits_change_nothing(futex_wake_after(f, u, val).1, u, n);
}

/// Waking reports how many were woken: no more than asked for, no more than waited,
/// and as many as both allow. So many fewer wait afterwards.
pub proof fn wake_counts_the_woken(f: FutexModel, u: u32, val: i32)
    requires
        f.wf(),
        val >= 0,
    ensures
        ({
            let (step, g) = futex_wake_after(f, u, val);
            let n = match step {
                FutexStep::Wake { count, .. } => count as int,
                FutexStep::Done(r) => r as int,
                _ => -1,
            };
            &&& n == woken(f, u, val)
            &&& n <= val
            &&& n <= f.waiters(u)
            &&& n == val || n == f.waiters(u)
            &&& g.waiters(u) == f.waiters(u) - n
        }),
{
}

/// A wait that times out or is interrupted leaves the table as it was but for the
/// numbers given out: nobody waits who did not wait before.
pub proof fn abandoned_wait_leaves_no_waiter(f: FutexModel, u: u32, v: u32, e: WaitEvent)
    requires
        f.wf(),
        f.room(u),
    ensures
        f.parked(u).waiters(u) == f.waiters(u) + 1,
        !(e is Woken) ==> wait_ended(f.parked(u), u, e).waiters(v) == f.waiters(v),
        !(e is Woken) ==> wait_ended(f.parked(u), u, e).by_addr == f.by_addr,
{
    assert(f.parked(u).fewer(u, 1).by_addr =~= f.by_addr);
}

/// Waking on one address leaves those who wait on another.
pub proof fn wake_touches_one_address(f: FutexModel, u: u32, v: u32, val: i32)
    requires
        u != v,
    ensures
        futex_wake_after(f, u, val).1.waiters(v) == f.waiters(v),
{
}

} // verus!
