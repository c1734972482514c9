//! Processes: exit, children, names and signals sent.
//!
//! There is one process, number 1. A child that is forked or cloned gets a number
//! and is not run.

use vstd::prelude::*;
use crate::bytes::le;
use crate::bytes::le_len;
use crate::bytes::push_le;
use crate::bytes::push_zeros;
use crate::bytes::to_word32;
use crate::bytes::word32;
use crate::bytes::zeros;
use crate::errno::ECHILD;
use crate::errno::EFAULT;
use crate::errno::EINVAL;
use crate::errno::EIO;
use crate::errno::EPERM;
use crate::errno::ESRCH;
use crate::mem::guest_slice;
use crate::mem::guest_str;
use crate::mem::guest_write;
use crate::mem::in_bounds;
use crate::mem::splice;
use crate::mem::splice_reads_back;
use crate::mem::text_at;
use crate::mem::window;
use crate::mem::written;

verus! {

broadcast use le_len;

pub const WNOHANG: i32 = 0x40;
pub const WUNTRACED: i32 = 0x02;
pub const WCONTINUED: i32 = 0x08;
pub const WNOWAIT: i32 = 0x0100_0000;
pub const WALL: i32 = 0x4000_0000;

/// The options that `wait4` knows.
pub const WAIT4_SUPPORTED_V1: i32 = WNOHANG;

pub const CLONE_VM: i64 = 0x100;
pub const CLONE_THREAD: i64 = 0x1_0000;
pub const CLONE_CHILD_SETTID: i64 = 0x0100_0000;
pub const CLONE_PARENT_SETTID: i64 = 0x0800_0000;

/// The flags of `clone` that ask for the child's number; one of them is needed.
pub const CLONE_SUPPORTED_V1: i64 = CLONE_CHILD_SETTID | CLONE_PARENT_SETTID;

/// The flags that `clone` knows.
pub const CLONE_SUPPORTED_V2: i64 = CLONE_CHILD_SETTID | CLONE_PARENT_SETTID | CLONE_VM
    | CLONE_THREAD;

pub const NR_EXIT: u32 = 60;
pub const NR_EXIT_GROUP: u32 = 231;
pub const NR_GETPID: u32 = 39;
pub const NR_GETTID: u32 = 186;
pub const NR_SET_TID_ADDRESS: u32 = 218;
pub const NR_SET_ROBUST_LIST: u32 = 273;
pub const NR_ARCH_PRCTL: u32 = 158;
pub const NR_RSEQ: u32 = 334;
pub const NR_SCHED_YIELD: u32 = 24;
pub const NR_SCHED_GETAFFINITY: u32 = 204;
pub const NR_PRCTL: u32 = 157;
pub const NR_KILL: u32 = 62;
pub const NR_TGKILL: u32 = 234;
pub const NR_CLONE: u32 = 56;
pub const NR_FORK: u32 = 57;
pub const NR_WAIT4: u32 = 61;
pub const NR_SNAPSHOT: u32 = 123;

pub const PR_SET_NAME: i32 = 15;
pub const PR_GET_NAME: i32 = 16;
pub const PR_GET_DUMPABLE: i32 = 3;
pub const PR_SET_DUMPABLE: i32 = 4;
pub const PR_GET_NO_NEW_PRIVS: i32 = 39;
pub const PR_SET_NO_NEW_PRIVS: i32 = 38;

/// The longest path that a snapshot can be written to.
pub const SNAPSHOT_PATH_MAX: i64 = 4096;

/// How often a wait for one child looks before it gives up.
pub const WAIT_BUDGET: u32 = 10_000;

/// Whether a child has ended, and with what.
#[derive(Clone, Copy, PartialEq, Eq, Structural, Debug)]
pub struct ChildExitStatus {
    pub exited: bool,
    pub exit_code: i32,
}

impl ChildExitStatus {
    /// A child that has not ended.
    pub fn new(exit_code: i32) -> (r: ChildExitStatus)
        ensures
            r == (ChildExitStatus { exited: false, exit_code }),
    {
        ChildExitStatus { exited: false, exit_code }
    }
}

/// The state of the process.
pub struct ProcessState {
    pub exit_code: Option<i32>,
    /// The children by number, each once, in the order in which they came.
    pub children: Vec<(i32, ChildExitStatus)>,
    /// The number of the next child.
    pub next_pid: i32,
    /// The signals that were sent and not yet delivered, in order.
    pub signals_pending: Vec<i32>,
    pub comm: [u8; 16],
}

#[verifier::ext_equal]
pub struct ProcessModel {
    pub exit_code: Option<i32>,
    pub children: Seq<(i32, ChildExitStatus)>,
    pub next_pid: i32,
    pub signals_pending: Seq<i32>,
    pub comm: Seq<u8>,
}

impl View for ProcessState {
    type V = ProcessModel;

    open spec fn view(&self) -> ProcessModel {
        ProcessModel {
            exit_code: self.exit_code,
            children: self.children@,
            next_pid: self.next_pid,
            signals_pending: self.signals_pending@,
            comm: self.comm@,
        }
    }
}

/// Whether the child `pid` is among `s`.
pub open spec fn has_child(s: Seq<(i32, ChildExitStatus)>, pid: i32) -> bool {
    exists|i: int| 0 <= i < s.len() && (#[trigger] s[i]).0 == pid
}

/// Where the child `pid` stands.
pub open spec fn child_index(s: Seq<(i32, ChildExitStatus)>, pid: i32) -> int {
    choose|i: int| 0 <= i < s.len() && (#[trigger] s[i]).0 == pid
}

/// No number is given to two children.
pub open spec fn pids_distinct(s: Seq<(i32, ChildExitStatus)>) -> bool {
    forall|i: int, j: int| 0 <= i < j < s.len() ==> (#[trigger] s[i]).0 != (#[trigger] s[j]).0
}

proof fn child_index_is(s: Seq<(i32, ChildExitStatus)>, pid: i32, i: int)
    requires
        pids_distinct(s),
        0 <= i < s.len(),
        s[i].0 == pid,
    ensures
        has_child(s, pid),
        child_index(s, pid) == i,
{
    let j = child_index(s, pid);
    assert(0 <= j < s.len() && s[j].0 == pid);
    if j < i {
        assert(s[j].0 != s[i].0);
    }
    if i < j {
        assert(s[i].0 != s[j].0);
    }
}

impl ProcessModel {
    pub open spec fn wf(self) -> bool {
        pids_distinct(self.children)
    }
}

/// The process as it starts.
pub open spec fn fresh_process() -> ProcessModel {
    ProcessModel {
        exit_code: None,
        children: Seq::empty(),
        next_pid: 2,
        signals_pending: Seq::empty(),
        comm: zeros(16),
    }
}

impl ProcessState {
    /// The process as it starts.
    pub fn new() -> (r: ProcessState)
        ensures
            r@ == fresh_process(),
            r@.wf(),
    {
        let r: ProcessState = ProcessState {
            exit_code: None,
            children: Vec::new(),
            next_pid: 2,
            signals_pending: Vec::new(),
            comm: [0u8;16],
        };
        assert(r@ =~= fresh_process());
        r
    }
}

/// The children, all of them ended.
pub open spec fn all_exited(s: Seq<(i32, ChildExitStatus)>) -> Seq<(i32, ChildExitStatus)> {
    Seq::new(
        s.len(),
        |i: int| (s[i].0, ChildExitStatus { exited: true, exit_code: s[i].1.exit_code }),
    )
}

/// Mark every child as ended. The host then wakes those who wait for one.
pub fn reap_all_children(p: &mut ProcessState)
    ensures
        final(p)@ == (ProcessModel { children: all_exited(old(p)@.children), ..old(p)@ }),
        old(p)@.wf() ==> final(p)@.wf(),
{
    let ghost s = p@.children;
    let n: usize = p.children.len();
    let mut i: usize = 0;
    while i < n
        invariant
            i <= n,
            n == s.len(),
            s == old(p)@.children,
            p@.children.len() == n,
            p@ == (ProcessModel { children: p@.children, ..old(p)@ }),
            forall|j: int| 0 <= j < i ==> p@.children[j] == all_exited(s)[j],
            forall|j: int| i <= j < n ==> p@.children[j] == s[j],
        decreases n - i,
    {
        let (pid, st): (i32, ChildExitStatus) = p.children[i];
        p.children.set(i, (pid, ChildExitStatus { exited: true, exit_code: st.exit_code }));
        i = i + 1;
    }
    assert(p@.children =~= all_exited(s));
    proof {
        if old(p)@.wf() {
            let t = all_exited(s);
            assert forall|i: int, j: int| 0 <= i < j < t.len() implies (#[trigger] t[i]).0 != (
            #[trigger] t[j]).0 by {
                assert(s[i].0 != s[j].0);
            }
        }
    }
}

/// The process after it exited with `code`.
pub open spec fn exited_with(p: ProcessModel, code: i32) -> ProcessModel {
    ProcessModel { exit_code: Some(code), children: all_exited(p.children), ..p }
}

/// `exit(code)`: record the code, and let every child be waited for.
pub fn exit(p: &mut ProcessState, a: [i64; 6]) -> (r: i64)
    ensures
        r == 0,
        final(p)@ == exited_with(old(p)@, a[0] as i32),
        old(p)@.wf() ==> final(p)@.wf(),
{
    p.exit_code = Some(a[0] as i32);
    reap_all_children(p);
    0
}

/// `exit_group(code)`: as `exit`.
pub fn exit_group(p: &mut ProcessState, a: [i64; 6]) -> (r: i64)
    ensures
        r == 0,
        final(p)@ == exited_with(old(p)@, a[0] as i32),
        old(p)@.wf() ==> final(p)@.wf(),
{
    exit(p, a)
}

pub fn getpid() -> (r: i64)
    ensures
        r == 1,
{
    1
}

pub fn gettid() -> (r: i64)
    ensures
        r == 1,
{
    1
}

pub fn set_tid_address(_a: [i64; 6]) -> (r: i64)
    ensures
        r == 1,
{
    1
}

pub fn set_robust_list() -> (r: i64)
    ensures
        r == 0,
{
    0
}

/// `sched_yield()`. The host lets others run first.
pub fn sched_yield() -> (r: i64)
    ensures
        r == 0,
{
    0
}

/// The number after `n`; after the largest comes the smallest.
pub open spec fn pid_after(n: i32) -> i32 {
    if n == i32::MAX {
        i32::MIN
    } else {
        (n + 1) as i32
    }
}

/// Give out the next number.
fn next_pid(p: &mut ProcessState) -> (r: i32)
    ensures
        r == old(p)@.next_pid,
        final(p)@ == (ProcessModel { next_pid: pid_after(old(p)@.next_pid), ..old(p)@ }),
{
    let n: i32 = p.next_pid;
    p.next_pid = if n == i32::MAX {
        i32::MIN
    } else {
        n + 1
    };
    n
}

/// What `clone` does: a number for the child, written to the addresses that the
/// flags ask for, the parent's first.
pub open spec fn clone_after(p: ProcessModel, m: Seq<u8>, a: [i64; 6]) -> (
    int,
    ProcessModel,
    Seq<u8>,
) {
    let tid = p.next_pid;
    let q = ProcessModel { next_pid: pid_after(tid), ..p };
    let b = le(word32(tid), 4);
    let parent = a[0] & CLONE_PARENT_SETTID != 0;
    let child = a[0] & CLONE_CHILD_SETTID != 0;
    let m1 = if parent {
        written(m, a[2] as int, b)
    } else {
        m
    };
    let m2 = if child {
        written(m1, a[3] as int, b)
    } else {
        m1
    };
    if a[0] & !CLONE_SUPPORTED_V2 != 0 || a[0] & CLONE_SUPPORTED_V1 == 0 {
        (-EINVAL, p, m)
    } else if parent && !in_bounds(m.len(), a[2] as int, 4) {
        (-EFAULT, q, m)
    } else if child && !in_bounds(m.len(), a[3] as int, 4) {
        (-EFAULT, q, m1)
    } else {
        (tid as int, q, m2)
    }
}

/// `clone(flags, stack, ptid, ctid, tls)`.
pub fn clone_syscall(p: &mut ProcessState, mem: &mut [u8], a: [i64; 6]) -> (r: i64)
    ensures
        (r as int, final(p)@, final(mem)@) == clone_after(old(p)@, old(mem)@, a),
        old(p)@.wf() ==> final(p)@.wf(),
        final(mem)@.len() == old(mem)@.len(),
{
    let flags: i64 = a[0];
    if flags & !CLONE_SUPPORTED_V2 != 0 {
        return -EINVAL;
    }
    if flags & CLONE_SUPPORTED_V1 == 0 {
        return -EINVAL;
    }
    let tid: i32 = next_pid(p);
    let mut b: Vec<u8> = Vec::new();
    push_le(&mut b, to_word32(tid) as u64, 4);
    assert(b@ =~= le(word32(tid), 4));
    if flags & CLONE_PARENT_SETTID != 0 {
        match guest_write(mem, a[2], b.as_slice()) {
            Ok(_) => {},
            Err(e) => {
                return e;
            },
        }
    }
    if flags & CLONE_CHILD_SETTID != 0 {
        match guest_write(mem, a[3], b.as_slice()) {
            Ok(_) => {},
            Err(e) => {
                return e;
            },
        }
    }
    tid as i64
}

/// The children with the status of `pid` recorded, in the place of an earlier one
/// with that number or at the end.
pub open spec fn child_put(s: Seq<(i32, ChildExitStatus)>, pid: i32, st: ChildExitStatus) -> Seq<
    (i32, ChildExitStatus),
> {
    if has_child(s, pid) {
        s.update(child_index(s, pid), (pid, st))
    } else {
        s.push((pid, st))
    }
}

/// What `fork` does: a number for the child, and the child among those that can be
/// waited for.
pub open spec fn forked(p: ProcessModel) -> ProcessModel {
    ProcessModel {
        next_pid: pid_after(p.next_pid),
        children: child_put(
            p.children,
            p.next_pid,
            ChildExitStatus { exited: false, exit_code: 0 },
        ),
        ..p
    }
}

fn find_child(p: &ProcessState, pid: i32) -> (r: Option<usize>)
    requires
        p@.wf(),
    ensures
        match r {
            Some(i) => i < p@.children.len() && p@.children[i as int].0 == pid && has_child(
                p@.children,
                pid,
            ) && i == child_index(p@.children, pid),
            None => !has_child(p@.children, pid),
        },
{
    let n: usize = p.children.len();
    let mut i: usize = 0;
    while i < n
        invariant
            i <= n,
            n == p@.children.len(),
            p@.wf(),
            forall|j: int| 0 <= j < i ==> (#[trigger] p@.children[j]).0 != pid,
        decreases n - i,
    {
        if p.children[i].0 == pid {
            proof {
                child_index_is(p@.children, pid, i as int);
            }
            return Some(i);
        }
        i = i + 1;
    }
    None
}

/// Record the status of the child `pid`.
pub fn put_child(p: &mut ProcessState, pid: i32, st: ChildExitStatus)
    requires
        old(p)@.wf(),
    ensures
        final(p)@ == (ProcessModel { children: child_put(old(p)@.children, pid, st), ..old(p)@ }),
        final(p)@.wf(),
{
    let ghost s = p@.children;
    match find_child(p, pid) {
        Some(i) => {
            p.children.set(i, (pid, st));
            proof {
                let t = p@.children;
                assert forall|k: int, j: int| 0 <= k < j < t.len() implies (#[trigger] t[k]).0 != (
                #[trigger] t[j]).0 by {
                    assert(s[k].0 != s[j].0);
                }
            }
        },
        None => {
            p.children.push((pid, st));
            proof {
                let t = p@.children;
                assert forall|k: int, j: int| 0 <= k < j < t.len() implies (#[trigger] t[k]).0 != (
                #[trigger] t[j]).0 by {
                    if j == s.len() {
                        assert(s[k].0 != pid);
                    } else {
                        assert(s[k].0 != s[j].0);
                    }
                }
            }
        },
    }
}

/// `fork()`.
pub fn fork_syscall(p: &mut ProcessState, _a: [i64; 6]) -> (r: i64)
    requires
        old(p)@.wf(),
    ensures
        r == old(p)@.next_pid,
        final(p)@ == forked(old(p)@),
        final(p)@.wf(),
{
    let pid: i32 = next_pid(p);
    put_child(p, pid, ChildExitStatus { exited: false, exit_code: 0 });
    pid as i64
}

/// Whether the child at `i` is the first that has ended.
pub open spec fn first_exited(s: Seq<(i32, ChildExitStatus)>, i: int) -> bool {
    &&& 0 <= i < s.len()
    &&& s[i].1.exited
    &&& forall|j: int| 0 <= j < i ==> !(#[trigger] s[j]).1.exited
}

/// Whether any child has ended.
pub open spec fn any_exited(s: Seq<(i32, ChildExitStatus)>) -> bool {
    exists|i: int| first_exited(s, i)
}

/// The place of the child that a wait for `pid` takes: that child if it has ended,
/// and for a `pid` of zero or less the first child that has ended.
pub open spec fn reapable(s: Seq<(i32, ChildExitStatus)>, pid: i64) -> Option<int> {
    if pid > 0 {
        if has_child(s, pid as i32) && s[child_index(s, pid as i32)].1.exited {
            Some(child_index(s, pid as i32))
        } else {
            None
        }
    } else if any_exited(s) {
        Some(choose|i: int| first_exited(s, i))
    } else {
        None
    }
}

/// The process after a wait for `pid` took a child, if there was one to take.
pub open spec fn reaped(p: ProcessModel, pid: i64) -> ProcessModel {
    match reapable(p.children, pid) {
        Some(i) => ProcessModel { children: p.children.remove(i), ..p },
        None => p,
    }
}

fn find_exited(p: &ProcessState) -> (r: Option<usize>)
    ensures
        match r {
            Some(i) => first_exited(p@.children, i as int) && reapable(p@.children, 0) == Some(
                i as int,
            ),
            None => !any_exited(p@.children),
        },
{
    let n: usize = p.children.len();
    let mut i: usize = 0;
    while i < n
        invariant
            i <= n,
            n == p@.children.len(),
            forall|j: int| 0 <= j < i ==> !(#[trigger] p@.children[j]).1.exited,
        decreases n - i,
    {
        if p.children[i].1.exited {
            proof {
                let s = p@.children;
                assert(first_exited(s, i as int));
                let c = choose|k: int| first_exited(s, k);
                assert(first_exited(s, c));
                if c < i {
                    assert(!s[c].1.exited);
                }
                if i < c {
                    assert(!s[i as int].1.exited);
                }
            }
            return Some(i);
        }
        i = i + 1;
    }
    proof {
        let s = p@.children;
        if any_exited(s) {
            let c = choose|k: int| first_exited(s, k);
            assert(!s[c].1.exited);
        }
    }
    None
}

/// Take a child that a wait for `pid` can take: its number and code.
pub fn try_reap(p: &mut ProcessState, pid: i64) -> (r: Option<(i32, i32)>)
    requires
        old(p)@.wf(),
    ensures
        r == (match reapable(old(p)@.children, pid) {
            Some(i) => Some((old(p)@.children[i].0, old(p)@.children[i].1.exit_code)),
            None => None,
        }),
        final(p)@ == reaped(old(p)@, pid),
        final(p)@.wf(),
{
    let found: Option<usize> = if pid > 0 {
        match find_child(p, pid as i32) {
            Some(i) => if p.children[i].1.exited {
                Some(i)
            } else {
                None
            },
            None => None,
        }
    } else {
        find_exited(p)
    };
    match found {
        Some(i) => {
            let ghost s = p@.children;
            let (id, st): (i32, ChildExitStatus) = p.children.remove(i);
            proof {
                let t = p@.children;
                assert forall|k: int, j: int| 0 <= k < j < t.len() implies (#[trigger] t[k]).0 != (
                #[trigger] t[j]).0 by {
                    let k0 = if k < i { k } else { k + 1 };
                    let j0 = if j < i { j } else { j + 1 };
                    assert(t[k] == s[k0] && t[j] == s[j0]);
                    assert(s[k0].0 != s[j0].0);
                }
            }
            Some((id, st.exit_code))
        },
        None => None,
    }
}

/// The wait status of a child that ended with `code`: its low byte, shifted up.
pub open spec fn wait_status(code: i32) -> i32 {
    ((code & 0xff) * 256) as i32
}

/// What a wait that took the child `pid` returns and leaves in the memory.
pub open spec fn status_told(m: Seq<u8>, pid: i32, code: i32, ptr: int) -> (int, Seq<u8>) {
    if ptr == 0 {
        (pid as int, m)
    } else if in_bounds(m.len(), ptr, 4) {
        (pid as int, splice(m, ptr, le(word32(wait_status(code)), 4)))
    } else {
        (-EFAULT, m)
    }
}

/// Tell the wait status of the child `picked`.
pub fn write_wstatus_and_return(mem: &mut [u8], picked: i32, exit_code: i32, wstatus_ptr: i64) -> (r:
    i64)
    ensures
        (r as int, final(mem)@) == status_told(old(mem)@, picked, exit_code, wstatus_ptr as int),
        final(mem)@.len() == old(mem)@.len(),
{
    assert(0 <= (exit_code & 0xff) <= 255) by (bit_vector);
    let wstatus: i32 = (exit_code & 0xff) * 256;
    if wstatus_ptr != 0 {
        let mut b: Vec<u8> = Vec::new();
        push_le(&mut b, to_word32(wstatus) as u64, 4);
        assert(b@ =~= le(word32(wstatus), 4));
        match guest_write(mem, wstatus_ptr, b.as_slice()) {
            Ok(_) => {},
            Err(e) => {
                return e;
            },
        }
    }
    picked as i64
}

/// What is left to do of a `wait4`.
#[derive(Clone, Copy, PartialEq, Eq, Structural, Debug)]
pub enum WaitStep {
    Done(i64),
    /// Wait a millisecond, and go on with `wait4_tick`; it has looked so often.
    Tick { looked: u32 },
    /// Wait for a child to end, and go on with `wait4_child_event`.
    ChildEvent,
}

/// What a wait leaves behind.
pub struct WaitAfter {
    pub step: WaitStep,
    pub process: ProcessModel,
    pub mem: Seq<u8>,
}

/// A wait for `pid` that takes a child, which has ended.
pub open spec fn wait_takes(p: ProcessModel, m: Seq<u8>, pid: i64, ptr: int) -> WaitAfter {
    let (id, st) = p.children[reapable(p.children, pid)->Some_0];
    let (ret, after) = status_told(m, id, st.exit_code, ptr);
    WaitAfter { step: WaitStep::Done(ret as i64), process: reaped(p, pid), mem: after }
}

/// What `wait4` does. With `WNOHANG` it does not wait.
pub open spec fn wait4_after(p: ProcessModel, m: Seq<u8>, a: [i64; 6]) -> WaitAfter {
    let options = a[2] as i32;
    let ends = |r: int| WaitAfter { step: WaitStep::Done(r as i64), process: p, mem: m };
    if options & !WAIT4_SUPPORTED_V1 != 0 || a[0] < -1 {
        ends(-EINVAL)
    } else if p.children.len() == 0 || (a[0] > 0 && !has_child(p.children, a[0] as i32)) {
        ends(-ECHILD)
    } else if reapable(p.children, a[0]) is Some {
        wait_takes(p, m, a[0], a[1] as int)
    } else if options & WNOHANG != 0 {
        ends(0)
    } else if a[0] > 0 {
        WaitAfter { step: WaitStep::Tick { looked: 0 }, process: p, mem: m }
    } else {
        WaitAfter { step: WaitStep::ChildEvent, process: p, mem: m }
    }
}

/// `wait4(pid, wstatus, options, rusage)`: take a child that has ended, or wait for
/// one.
pub fn wait4_syscall(p: &mut ProcessState, mem: &mut [u8], a: [i64; 6]) -> (r: WaitStep)
    requires
        old(p)@.wf(),
    ensures
        (WaitAfter { step: r, process: final(p)@, mem: final(mem)@ }) == wait4_after(
            old(p)@,
            old(mem)@,
            a,
        ),
        final(p)@.wf(),
        final(mem)@.len() == old(mem)@.len(),
{
    let options: i32 = a[2] as i32;
    if options & !WAIT4_SUPPORTED_V1 != 0 {
        return WaitStep::Done(-EINVAL);
    }
    if a[0] < -1 {
        return WaitStep::Done(-EINVAL);
    }
    if p.children.len() == 0 {
        return WaitStep::Done(-ECHILD);
    }
    if a[0] > 0 {
        match find_child(p, a[0] as i32) {
            Some(_) => {},
            None => {
                return WaitStep::Done(-ECHILD);
            },
        }
    }
    match try_reap(p, a[0]) {
        Some((pid, code)) => {
            return WaitStep::Done(write_wstatus_and_return(mem, pid, code, a[1]));
        },
        None => {},
    }
    if options & WNOHANG != 0 {
        return WaitStep::Done(0);
    }
    if a[0] > 0 {
        WaitStep::Tick { looked: 0 }
    } else {
        WaitStep::ChildEvent
    }
}

/// What a wait for the child `a[0]` does after a millisecond. It gives up after many.
pub open spec fn wait4_tick_after(p: ProcessModel, m: Seq<u8>, a: [i64; 6], looked: u32) -> WaitAfter {
    if !has_child(p.children, a[0] as i32) {
        WaitAfter { step: WaitStep::Done((-ECHILD) as i64), process: p, mem: m }
    } else if reapable(p.children, a[0]) is Some {
        wait_takes(p, m, a[0], a[1] as int)
    } else if looked >= WAIT_BUDGET {
        WaitAfter { step: WaitStep::Done((-ECHILD) as i64), process: p, mem: m }
    } else {
        WaitAfter { step: WaitStep::Tick { looked: (looked + 1) as u32 }, process: p, mem: m }
    }
}

/// Go on with a wait for one child after a millisecond.
pub fn wait4_tick(p: &mut ProcessState, mem: &mut [u8], a: [i64; 6], looked: u32) -> (r: WaitStep)
    requires
        old(p)@.wf(),
        a[0] > 0,
    ensures
        (WaitAfter { step: r, process: final(p)@, mem: final(mem)@ }) == wait4_tick_after(
            old(p)@,
            old(mem)@,
            a,
            looked,
        ),
        final(p)@.wf(),
        final(mem)@.len() == old(mem)@.len(),
{
    match find_child(p, a[0] as i32) {
        Some(_) => {},
        None => {
            return WaitStep::Done(-ECHILD);
        },
    }
    match try_reap(p, a[0]) {
        Some((pid, code)) => {
            return WaitStep::Done(write_wstatus_and_return(mem, pid, code, a[1]));
        },
        None => {},
    }
    if looked >= WAIT_BUDGET {
        return WaitStep::Done(-ECHILD);
    }
    WaitStep::Tick { looked: looked + 1 }
}

/// What a wait for any child does when one may have ended.
pub open spec fn wait4_event_after(p: ProcessModel, m: Seq<u8>, a: [i64; 6]) -> WaitAfter {
    if reapable(p.children, a[0]) is Some {
        wait_takes(p, m, a[0], a[1] as int)
    } else {
        WaitAfter { step: WaitStep::ChildEvent, process: p, mem: m }
    }
}

/// Go on with a wait for any child when one may have ended.
pub fn wait4_child_event(p: &mut ProcessState, mem: &mut [u8], a: [i64; 6]) -> (r: WaitStep)
    requires
        old(p)@.wf(),
    ensures
        (WaitAfter { step: r, process: final(p)@, mem: final(mem)@ }) == wait4_event_after(
            old(p)@,
            old(mem)@,
            a,
        ),
        final(p)@.wf(),
        final(mem)@.len() == old(mem)@.len(),
{
    match try_reap(p, a[0]) {
        Some((pid, code)) => WaitStep::Done(write_wstatus_and_return(mem, pid, code, a[1])),
        None => WaitStep::ChildEvent,
    }
}

/// The mask of processors, in `n` bytes: the first processor, and no other.
pub open spec fn cpu_mask(n: nat) -> Seq<u8> {
    Seq::new(
        n,
        |i: int|
            if i == 0 {
                1u8
            } else {
                0u8
            },
    )
}

/// How many bytes of the mask are written.
pub open spec fn mask_len(len: i64) -> int {
    if len > 8 {
        8
    } else if len < 0 {
        0
    } else {
        len as int
    }
}

/// What `sched_getaffinity` does.
pub open spec fn sched_getaffinity_after(m: Seq<u8>, a: [i64; 6]) -> (int, Seq<u8>) {
    let n = mask_len(a[1]);
    if a[0] != 0 && a[0] != 1 {
        (-ESRCH, m)
    } else if n == 0 {
        (-EINVAL, m)
    } else if !in_bounds(m.len(), a[2] as int, n) {
        (-EFAULT, m)
    } else {
        (n, splice(m, a[2] as int, cpu_mask(n as nat)))
    }
}

/// `sched_getaffinity(pid, len, mask)`: there is one processor.
pub fn sched_getaffinity(mem: &mut [u8], a: [i64; 6]) -> (r: i64)
    ensures
        (r as int, final(mem)@) == sched_getaffinity_after(old(mem)@, a),
        final(mem)@.len() == old(mem)@.len(),
{
    if a[0] != 0 && a[0] != 1 {
        return -ESRCH;
    }
    let n: i64 = if a[1] > 8 {
        8
    } else if a[1] < 0 {
        0
    } else {
        a[1]
    };
    if n == 0 {
        return -EINVAL;
    }
    let mut b: Vec<u8> = Vec::new();
    b.push(1u8);
    push_zeros(&mut b, (n - 1) as usize);
    assert(b@ =~= cpu_mask(n as nat));
    match guest_write(mem, a[2], b.as_slice()) {
        Ok(_) => n,
        Err(e) => e,
    }
}

/// The name that sixteen bytes spell: they end at the first zero, and zeros follow.
pub open spec fn comm_of(b: Seq<u8>) -> Seq<u8> {
    Seq::new(
        16,
        |i: int|
            if forall|j: int| 0 <= j <= i ==> #[trigger] b[j] != 0 {
                b[i]
            } else {
                0u8
            },
    )
}

/// What `prctl` does.
pub open spec fn prctl_after(p: ProcessModel, m: Seq<u8>, a: [i64; 6]) -> (
    int,
    ProcessModel,
    Seq<u8>,
) {
    let option = a[0] as i32;
    let there = in_bounds(m.len(), a[1] as int, 16);
    if option == PR_SET_NAME {
        if a[1] == 0 {
            (-EINVAL, p, m)
        } else if !there {
            (-EFAULT, p, m)
        } else {
            (0, ProcessModel { comm: comm_of(window(m, a[1] as int, 16)), ..p }, m)
        }
    } else if option == PR_GET_NAME {
        if a[1] == 0 {
            (-EINVAL, p, m)
        } else if !there {
            (-EFAULT, p, m)
        } else {
            (0, p, splice(m, a[1] as int, p.comm))
        }
    } else if option == PR_GET_NO_NEW_PRIVS {
        (1, p, m)
    } else if option == PR_GET_DUMPABLE || option == PR_SET_DUMPABLE || option
        == PR_SET_NO_NEW_PRIVS {
        (0, p, m)
    } else {
        (-EINVAL, p, m)
    }
}

/// The name that sixteen bytes spell.
fn read_comm(b: &Vec<u8>) -> (r: [u8; 16])
    requires
        b@.len() == 16,
    ensures
        r@ == comm_of(b@),
{
    let mut out: [u8; 16] = [0u8;16];
    let mut i: usize = 0;
    let mut ended: bool = false;
    while i < 16
        invariant
            i <= 16,
            b@.len() == 16,
            out@.len() == 16,
            !ended ==> forall|j: int| 0 <= j < i ==> #[trigger] b@[j] != 0,
            ended ==> exists|j: int| 0 <= j < i && #[trigger] b@[j] == 0,
            forall|j: int| 0 <= j < i ==> out@[j] == #[trigger] comm_of(b@)[j],
        decreases 16 - i,
    {
        if b[i] == 0 {
            ended = true;
        }
        if !ended {
            out[i] = b[i];
        } else {
            out[i] = 0;
        }
        i = i + 1;
    }
    assert(out@ =~= comm_of(b@));
    out
}

/// `prctl(option, ..)`: the name of the process, and what little else there is.
pub fn prctl(p: &mut ProcessState, mem: &mut [u8], a: [i64; 6]) -> (r: i64)
    ensures
        (r as int, final(p)@, final(mem)@) == prctl_after(old(p)@, old(mem)@, a),
        old(p)@.wf() ==> final(p)@.wf(),
        final(mem)@.len() == old(mem)@.len(),
{
    let option: i32 = a[0] as i32;
    if option == PR_SET_NAME {
        if a[1] == 0 {
            return -EINVAL;
        }
        match guest_slice(mem, a[1], 16) {
            Ok(b) => {
                p.comm = read_comm(&b);
                0
            },
            Err(e) => e,
        }
    } else if option == PR_GET_NAME {
        if a[1] == 0 {
            return -EINVAL;
        }
        let comm: [u8; 16] = p.comm;
        match guest_write(mem, a[1], comm.as_slice()) {
            Ok(_) => 0,
            Err(e) => e,
        }
    } else if option == PR_GET_NO_NEW_PRIVS {
        1
    } else if option == PR_GET_DUMPABLE || option == PR_SET_DUMPABLE || option
        == PR_SET_NO_NEW_PRIVS {
        0
    } else {
        -EINVAL
    }
}

/// What sending `sig` does: it is put last in the queue of pending signals.
pub open spec fn signal_sent(p: ProcessModel, sig: i64) -> (int, ProcessModel) {
    if 0 <= sig <= 64 {
        (0, ProcessModel { signals_pending: p.signals_pending.push(sig as i32), ..p })
    } else {
        (-EINVAL, p)
    }
}

/// What `kill` does. There is no process but the caller.
pub open spec fn kill_after(p: ProcessModel, a: [i64; 6]) -> (int, ProcessModel) {
    if a[0] != 0 && a[0] != 1 {
        (-ESRCH, p)
    } else {
        signal_sent(p, a[1])
    }
}

fn send_signal(p: &mut ProcessState, sig: i64) -> (r: i64)
    ensures
        (r as int, final(p)@) == signal_sent(old(p)@, sig),
        old(p)@.wf() ==> final(p)@.wf(),
{
    if sig < 0 || sig > 64 {
        return -EINVAL;
    }
    p.signals_pending.push(sig as i32);
    0
}

/// `kill(pid, sig)`: record the signal. Nothing is delivered here.
pub fn kill(p: &mut ProcessState, a: [i64; 6]) -> (r: i64)
    ensures
        (r as int, final(p)@) == kill_after(old(p)@, a),
        old(p)@.wf() ==> final(p)@.wf(),
{
    if a[0] != 0 && a[0] != 1 {
        return -ESRCH;
    }
    send_signal(p, a[1])
}

/// What `tgkill` does.
pub open spec fn tgkill_after(p: ProcessModel, a: [i64; 6]) -> (int, ProcessModel) {
    if (a[0] != 0 && a[0] != 1) || (a[1] != 0 && a[1] != 1) {
        (-ESRCH, p)
    } else {
        signal_sent(p, a[2])
    }
}

/// `tgkill(tgid, tid, sig)`: as `kill`.
pub fn tgkill(p: &mut ProcessState, a: [i64; 6]) -> (r: i64)
    ensures
        (r as int, final(p)@) == tgkill_after(old(p)@, a),
        old(p)@.wf() ==> final(p)@.wf(),
{
    if (a[0] != 0 && a[0] != 1) || (a[1] != 0 && a[1] != 1) {
        return -ESRCH;
    }
    send_signal(p, a[2])
}

/// What is left to do of a `snapshot`.
pub enum SnapshotStep {
    Done(i64),
    /// Write a snapshot to the file at this path; `snapshot_done` has the answer.
    Write { path: Vec<u8> },
}

/// The path that `snapshot` writes to, if it names one.
pub open spec fn snapshot_path(m: Seq<u8>, a: [i64; 6]) -> Option<Seq<u8>> {
    if a[0] == 0 {
        None
    } else {
        text_at(m, a[0] as int, SNAPSHOT_PATH_MAX as int)
    }
}

/// `snapshot(path)`: where the snapshot is to go.
pub fn snapshot_syscall(mem: &[u8], a: [i64; 6]) -> (r: SnapshotStep)
    ensures
        match r {
            SnapshotStep::Done(e) => e == -EFAULT && snapshot_path(mem@, a) is None,
            SnapshotStep::Write { path } => snapshot_path(mem@, a) == Some(path@),
        },
{
    if a[0] == 0 {
        return SnapshotStep::Done(-EFAULT);
    }
    match guest_str(mem, a[0], SNAPSHOT_PATH_MAX) {
        Ok(path) => SnapshotStep::Write { path },
        Err(e) => SnapshotStep::Done(e),
    }
}

/// The answer of a `snapshot` of which the host wrote so many bytes, or none.
pub open spec fn snapshot_answer(written: Option<usize>) -> int {
    match written {
        Some(n) => n as int,
        None => -EIO,
    }
}

/// The answer of a `snapshot`: how many bytes the host wrote, or `-EIO`.
pub fn snapshot_done(written: Option<usize>) -> (r: i64)
    requires
        written matches Some(n) ==> n <= i64::MAX,
    ensures
        r == snapshot_answer(written),
{
    match written {
        Some(n) => n as i64,
        None => -EIO,
    }
}

/// The answer to a signal that may not be sent.
pub fn _kill_perm() -> (r: i64)
    ensures
        r == -EPERM,
{
    -EPERM
}

/// A child is taken once: after it was waited for, there is no such child.
pub proof fn child_is_taken_once(p: ProcessModel, pid: i32)
    requires
        p.wf(),
        pid > 0,
        reapable(p.children, pid as i64) is Some,
    ensures
        !has_child(reaped(p, pid as i64).children, pid),
{
    let s = p.children;
    let i = child_index(s, pid);
    let t = s.remove(i);
    assert(s[i].0 == pid);
    assert forall|j: int| 0 <= j < t.len() implies (#[trigger] t[j]).0 != pid by {
        if j < i {
            assert(t[j] == s[j]);
            assert(s[j].0 != s[i].0);
        } else {
            assert(t[j] == s[j + 1]);
            assert(s[i].0 != s[j + 1].0);
        }
    }
}

/// After `exit` every child can be waited for, with the code that was recorded.
pub proof fn exit_frees_every_child(p: ProcessModel, code: i32, pid: i32)
    requires
        p.wf(),
        pid > 0,
        has_child(p.children, pid),
    ensures
        ({
            let after = exited_with(p, code).children;
            reapable(after, pid as i64) matches Some(i) && after[i].0 == pid
                && after[i].1.exit_code == p.children[child_index(p.children, pid)].1.exit_code
        }),
{
    let s = p.children;
    let t = all_exited(s);
    let i = child_index(s, pid);
    assert(s[i].0 == pid);
    assert(t[i].0 == pid);
    assert forall|k: int, j: int| 0 <= k < j < t.len() implies (#[trigger] t[k]).0 != (
    #[trigger] t[j]).0 by {
        assert(s[k].0 != s[j].0);
    }
    child_index_is(t, pid, i);
}

/// A forked child is there to be waited for and has not ended; the next child gets
/// another number.
pub proof fn forked_child_is_there(p: ProcessModel)
    requires
        p.wf(),
    ensures
        has_child(forked(p).children, p.next_pid),
        forked(p).children.contains(
            (p.next_pid, ChildExitStatus { exited: false, exit_code: 0 }),
        ),
        forked(p).next_pid != p.next_pid,
{
    let s = p.children;
    let st = ChildExitStatus { exited: false, exit_code: 0 };
    let t = child_put(s, p.next_pid, st);
    if has_child(s, p.next_pid) {
        assert(t[child_index(s, p.next_pid)] == (p.next_pid, st));
    } else {
        assert(t[s.len() as int] == (p.next_pid, st));
    }
}

/// The name that was set is the name that is told: the bytes before the first zero.
pub proof fn name_is_told_as_set(
    p: ProcessModel,
    m: Seq<u8>,
    later: Seq<u8>,
    set: [i64; 6],
    get: [i64; 6],
)
    requires
        set[0] as i32 == PR_SET_NAME,
        set[1] != 0,
        in_bounds(m.len(), set[1] as int, 16),
        get[0] as i32 == PR_GET_NAME,
        get[1] != 0,
        in_bounds(later.len(), get[1] as int, 16),
    ensures
        ({
            let (r, named, _) = prctl_after(p, m, set);
            let (r2, _, told) = prctl_after(named, later, get);
            &&& r == 0
            &&& r2 == 0
            &&& window(told, get[1] as int, 16) == comm_of(window(m, set[1] as int, 16))
        }),
{
    splice_reads_back(later, get[1] as int, comm_of(window(m, set[1] as int, 16)));
}

} // verus!
