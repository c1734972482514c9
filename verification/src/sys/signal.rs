//! Signals: dispositions, the mask, and what a pending signal does.
//!
//! A handler of the guest is recorded and never run: a signal that has one
//! interrupts the call that waits.

use std::collections::HashMap;
use vstd::prelude::*;
use vstd::slice::slice_to_vec;
use crate::bytes::int32;
use crate::bytes::le;
use crate::bytes::le_len;
use crate::bytes::le_round_trip;
use crate::bytes::pow256_values;
use crate::bytes::push_le;
use crate::bytes::push_zeros;
use crate::bytes::read_le;
use crate::bytes::to_int32;
use crate::bytes::zeros;
use crate::errno::EFAULT;
use crate::errno::EINVAL;
use crate::mem::check_range;
use crate::mem::guest_slice;
use crate::mem::guest_word;
use crate::mem::guest_write;
use crate::mem::in_bounds;
use crate::mem::splice;
use crate::mem::window;
use crate::mem::word_at;
use crate::sys::file::GUEST_LIMIT;

verus! {

broadcast use {le_len, vstd::std_specs::hash::group_hash_axioms};

pub const NR_RT_SIGACTION: u32 = 13;
pub const NR_RT_SIGPROCMASK: u32 = 14;
pub const NR_SIGALTSTACK: u32 = 131;
pub const NR_RT_SIGRETURN: u32 = 15;

pub const SS_ONSTACK: i32 = 1;
pub const SS_DISABLE: i32 = 2;

/// The size of a `struct sigaltstack`.
pub const SIGALTSTACK_SIZE: i64 = 24;

pub const SIG_BLOCK: i64 = 0;
pub const SIG_UNBLOCK: i64 = 1;
pub const SIG_SETMASK: i64 = 2;

/// The size of a `struct sigaction`: handler (4), flags (4), mask (16), restorer (4)
/// and padding (4).
pub const SIGACTION_SIZE: i64 = 32;

pub const SIGKILL: i32 = 9;
pub const SIGSTOP: i32 = 19;
pub const SIGCHLD: i32 = 17;
pub const SIGCONT: i32 = 18;
pub const SIGURG: i32 = 23;
pub const SIGWINCH: i32 = 28;

pub const SIG_DFL: u64 = 0;
pub const SIG_IGN: u64 = 1;

/// What is to happen on a signal.
#[derive(Clone, Copy, PartialEq, Eq, Structural, Debug)]
pub struct SigAction {
    pub handler: u64,
    pub flags: u64,
    pub restorer: u64,
    pub mask: u64,
}

/// The action of a signal that nothing was recorded for.
pub open spec fn no_action() -> SigAction {
    SigAction { handler: 0, flags: 0, restorer: 0, mask: 0 }
}

impl Default for SigAction {
    fn default() -> (r: SigAction)
        ensures
            r == no_action(),
    {
        SigAction { handler: 0, flags: 0, restorer: 0, mask: 0 }
    }
}

/// The recorded actions, the mask of blocked signals and the alternate stack.
pub struct SignalState {
    pub actions: HashMap<i32, SigAction>,
    pub mask: u64,
    /// The record as the guest wrote it, if it has set a stack.
    pub alt_stack: Option<Vec<u8>>,
}

#[verifier::ext_equal]
pub struct SignalModel {
    pub actions: Map<i32, SigAction>,
    pub mask: u64,
    pub alt_stack: Option<Seq<u8>>,
}

impl View for SignalState {
    type V = SignalModel;

    open spec fn view(&self) -> SignalModel {
        SignalModel {
            actions: self.actions@,
            mask: self.mask,
            alt_stack: match self.alt_stack {
                Some(b) => Some(b@),
                None => None,
            },
        }
    }
}

impl SignalModel {
    /// A recorded stack is a whole record.
    pub open spec fn wf(self) -> bool {
        self.alt_stack matches Some(b) ==> b.len() == SIGALTSTACK_SIZE
    }

    /// What is recorded for the signal.
    pub open spec fn action(self, signo: i32) -> SigAction {
        if self.actions.contains_key(signo) {
            self.actions[signo]
        } else {
            no_action()
        }
    }
}

impl SignalState {
    /// Nothing recorded, nothing blocked.
    pub fn new() -> (r: SignalState)
        ensures
            r@ == (SignalModel { actions: Map::empty(), mask: 0, alt_stack: None }),
            r@.wf(),
    {
        let r: SignalState = SignalState { actions: HashMap::new(), mask: 0, alt_stack: None };
        assert(r@ =~= SignalModel { actions: Map::empty(), mask: 0, alt_stack: None });
        r
    }

    /// What is recorded for the signal.
    pub fn action(&self, signo: i32) -> (r: SigAction)
        ensures
            r == self@.action(signo),
    {
        match self.actions.get(&signo) {
            Some(a) => *a,
            None => SigAction { handler: 0, flags: 0, restorer: 0, mask: 0 },
        }
    }
}

impl Default for SignalState {
    fn default() -> (r: SignalState)
        ensures
            r@ == (SignalModel { actions: Map::empty(), mask: 0, alt_stack: None }),
    {
        SignalState::new()
    }
}

/// What the pending signals do to the caller.
#[derive(Clone, Copy, PartialEq, Eq, Structural, Debug)]
pub enum DeliveryAction {
    /// Nothing is to be delivered.
    Ignore,
    /// A call that waits returns `-EINTR`.
    Interrupt,
    /// The guest is to end, with exit code 128 and the signal's number.
    Terminate(i32),
}

/// Whether the signal is ignored where nothing else was said.
pub open spec fn ignored_by_default(signo: i32) -> bool {
    signo == SIGCHLD || signo == SIGCONT || signo == SIGURG || signo == SIGWINCH
}

/// Whether the signal is blocked: bit `signo - 1` of the mask.
pub open spec fn masked(mask: u64, signo: i32) -> bool {
    1 <= signo <= 64 && mask & (1u64 << ((signo - 1) as u64)) != 0
}

/// What becomes of one pending signal.
pub enum Verdict {
    /// It goes without effect.
    Drop,
    /// It stays pending.
    Keep,
    /// It goes, and this happens.
    Act(DeliveryAction),
}

/// What becomes of the pending signal `signo`. Neither the mask nor a recorded
/// action holds `SIGKILL` and `SIGSTOP` off.
pub open spec fn verdict(s: SignalModel, signo: i32) -> Verdict {
    let handler = s.action(signo).handler;
    if signo == 0 {
        Verdict::Drop
    } else if signo == SIGKILL || signo == SIGSTOP {
        Verdict::Act(DeliveryAction::Terminate(signo))
    } else if masked(s.mask, signo) {
        Verdict::Keep
    } else if handler == SIG_IGN || (handler == SIG_DFL && ignored_by_default(signo)) {
        Verdict::Drop
    } else if handler == SIG_DFL {
        Verdict::Act(DeliveryAction::Terminate(signo))
    } else {
        Verdict::Act(DeliveryAction::Interrupt)
    }
}

/// What the queue of pending signals does, and what is left of it. The first signal
/// that acts ends the walk.
pub open spec fn delivery(s: SignalModel, q: Seq<i32>) -> (DeliveryAction, Seq<i32>)
    decreases q.len(),
{
    if q.len() == 0 {
        (DeliveryAction::Ignore, q)
    } else {
        let rest = delivery(s, q.drop_first());
        match verdict(s, q[0]) {
            Verdict::Drop => rest,
            Verdict::Keep => (rest.0, seq![q[0]] + rest.1),
            Verdict::Act(a) => (a, q.drop_first()),
        }
    }
}

/// Whether the signal is ignored where nothing else was said.
pub fn default_is_ignore(signo: i32) -> (r: bool)
    ensures
        r == ignored_by_default(signo),
{
    signo == SIGCHLD || signo == SIGCONT || signo == SIGURG || signo == SIGWINCH
}

/// Whether the mask blocks the signal.
pub fn is_masked(mask: u64, signo: i32) -> (r: bool)
    ensures
        r == masked(mask, signo),
{
    if signo < 1 || signo > 64 {
        return false;
    }
    mask & (1u64 << ((signo - 1) as u64)) != 0
}

fn judge(s: &SignalState, signo: i32) -> (r: Verdict)
    ensures
        r == verdict(s@, signo),
{
    if signo == 0 {
        return Verdict::Drop;
    }
    if signo == SIGKILL || signo == SIGSTOP {
        return Verdict::Act(DeliveryAction::Terminate(signo));
    }
    if is_masked(s.mask, signo) {
        return Verdict::Keep;
    }
    let handler: u64 = s.action(signo).handler;
    if handler == SIG_IGN {
        Verdict::Drop
    } else if handler == SIG_DFL {
        if default_is_ignore(signo) {
            Verdict::Drop
        } else {
            Verdict::Act(DeliveryAction::Terminate(signo))
        }
    } else {
        Verdict::Act(DeliveryAction::Interrupt)
    }
}

/// Walk the queue of pending signals and decide what the caller should do.
pub fn deliverable(s: &SignalState, pending: &mut Vec<i32>) -> (r: DeliveryAction)
    ensures
        (r, final(pending)@) == delivery(s@, old(pending)@),
{
    let n: usize = pending.len();
    let ghost q = pending@;
    let mut left: Vec<i32> = Vec::new();
    let mut result: DeliveryAction = DeliveryAction::Ignore;
    let mut i: usize = 0;
    let mut acted: bool = false;
    assert(q.skip(0) =~= q);
    assert(left@ + delivery(s@, q).1 =~= delivery(s@, q).1);
    while i < n && !acted
        invariant
            i <= n,
            n == q.len(),
            pending@ == q,
            !acted ==> result == DeliveryAction::Ignore && delivery(s@, q) == (
                delivery(s@, q.skip(i as int)).0,
                left@ + delivery(s@, q.skip(i as int)).1,
            ),
            acted ==> delivery(s@, q) == (result, left@ + q.skip(i as int)),
        decreases n - i,
    {
        let signo: i32 = pending[i];
        let ghost rest = q.skip(i as int);
        let ghost before = left@;
        proof {
            assert(rest[0] == signo);
            assert(rest.drop_first() =~= q.skip(i + 1));
        }
        match judge(s, signo) {
            Verdict::Drop => {},
            Verdict::Keep => {
                left.push(signo);
                assert(before + (seq![signo] + delivery(s@, q.skip(i + 1)).1) =~= left@ + delivery(
                    s@,
                    q.skip(i + 1),
                ).1);
            },
            Verdict::Act(a) => {
                result = a;
                acted = true;
            },
        }
        i = i + 1;
    }
    proof {
        if !acted {
            assert(q.skip(n as int) =~= Seq::empty());
        }
        assert(delivery(s@, q) == (result, left@ + q.skip(i as int)));
    }
    while i < n
        invariant
            i <= n,
            n == q.len(),
            pending@ == q,
            delivery(s@, q) == (result, left@ + q.skip(i as int)),
        decreases n - i,
    {
        let ghost before = left@;
        left.push(pending[i]);
        assert(left@ + q.skip(i + 1) =~= before + q.skip(i as int));
        i = i + 1;
    }
    assert(q.skip(n as int) =~= Seq::empty());
    assert(left@ + q.skip(n as int) =~= left@);
    *pending = left;
    result
}

/// What a signal does to a call that waits.
#[derive(Clone, Copy, PartialEq, Eq, Structural, Debug)]
pub enum SignalOutcome {
    /// Nothing: it waits on.
    Nothing,
    /// It returns `-EINTR`.
    Interrupted,
}

/// What the pending signals do to a call that waits.
pub open spec fn arm_outcome(a: DeliveryAction) -> SignalOutcome {
    match a {
        DeliveryAction::Ignore => SignalOutcome::Nothing,
        _ => SignalOutcome::Interrupted,
    }
}

/// Where the effect of a terminating signal on the exit code is to go. The guest
/// goes on for now: a terminating signal only interrupts, and the exit code stays.
pub fn apply_terminate_if_needed(exit_code: &mut Option<i32>, _action: &Option<DeliveryAction>)
    ensures
        *final(exit_code) == *old(exit_code),
{
}

/// Walk the queue of pending signals on behalf of a call that waits.
pub fn handle_signal_arm(s: &SignalState, pending: &mut Vec<i32>, exit_code: &mut Option<i32>) -> (r:
    SignalOutcome)
    ensures
        r == arm_outcome(delivery(s@, old(pending)@).0),
        final(pending)@ == delivery(s@, old(pending)@).1,
        *final(exit_code) == *old(exit_code),
{
    let action: DeliveryAction = deliverable(s, pending);
    match action {
        DeliveryAction::Ignore => SignalOutcome::Nothing,
        _ => {
            apply_terminate_if_needed(exit_code, &Some(action));
            SignalOutcome::Interrupted
        },
    }
}

/// The memory with the action in the `struct sigaction` at `ptr`: handler, flags and
/// the first half of the mask, and the restorer.
pub open spec fn sigaction_put(m: Seq<u8>, ptr: int, s: SigAction) -> Seq<u8> {
    splice(
        splice(m, ptr, le(s.handler as nat, 4) + le(s.flags as nat, 4) + le(s.mask as nat, 8)),
        ptr + 24,
        le(s.restorer as nat, 4),
    )
}

/// The action in the `struct sigaction` at `ptr`.
pub open spec fn sigaction_at(m: Seq<u8>, ptr: int) -> SigAction {
    SigAction {
        handler: word_at(m, ptr, 4) as u64,
        flags: word_at(m, ptr + 4, 4) as u64,
        mask: word_at(m, ptr + 8, 8) as u64,
        restorer: word_at(m, ptr + 24, 4) as u64,
    }
}

/// What a signal call leaves behind.
pub struct SignalAfter {
    pub ret: int,
    pub signals: SignalModel,
    pub mem: Seq<u8>,
}

/// What `rt_sigaction` does.
pub open spec fn rt_sigaction_after(s: SignalModel, m: Seq<u8>, a: [i64; 6]) -> SignalAfter {
    let signum = a[0] as i32;
    let told = if a[2] != 0 {
        sigaction_put(m, a[2] as int, s.action(signum))
    } else {
        m
    };
    if !(1 <= signum <= 64) {
        SignalAfter { ret: -EINVAL, signals: s, mem: m }
    } else if a[2] != 0 && !in_bounds(m.len(), a[2] as int, SIGACTION_SIZE as int) {
        SignalAfter { ret: -EFAULT, signals: s, mem: m }
    } else if a[1] == 0 {
        SignalAfter { ret: 0, signals: s, mem: told }
    } else if !in_bounds(m.len(), a[1] as int, SIGACTION_SIZE as int) {
        SignalAfter { ret: -EFAULT, signals: s, mem: told }
    } else {
        SignalAfter {
            ret: 0,
            signals: SignalModel {
                actions: s.actions.insert(signum, sigaction_at(told, a[1] as int)),
                ..s
            },
            mem: told,
        }
    }
}

fn write_sigaction(mem: &mut [u8], ptr: i64, s: SigAction) -> (r: Result<(), i64>)
    requires
        old(mem)@.len() <= GUEST_LIMIT,
    ensures
        final(mem)@.len() == old(mem)@.len(),
        match r {
            Ok(_) => in_bounds(old(mem)@.len(), ptr as int, 32) && final(mem)@ == sigaction_put(
                old(mem)@,
                ptr as int,
                s,
            ),
            Err(e) => !in_bounds(old(mem)@.len(), ptr as int, 32) && e == -EFAULT && final(mem)@
                == old(mem)@,
        },
{
    match check_range(mem.len(), ptr, SIGACTION_SIZE) {
        Ok(_) => {},
        Err(e) => {
            return Err(e);
        },
    }
    let mut head: Vec<u8> = Vec::new();
    push_le(&mut head, s.handler, 4);
    push_le(&mut head, s.flags, 4);
    push_le(&mut head, s.mask, 8);
    assert(head@ =~= le(s.handler as nat, 4) + le(s.flags as nat, 4) + le(s.mask as nat, 8));
    let mut tail: Vec<u8> = Vec::new();
    push_le(&mut tail, s.restorer, 4);
    assert(tail@ =~= le(s.restorer as nat, 4));
    let _ = guest_write(mem, ptr, head.as_slice());
    let _ = guest_write(mem, ptr + 24, tail.as_slice());
    Ok(())
}

fn read_sigaction(mem: &[u8], ptr: i64) -> (r: Result<SigAction, i64>)
    ensures
        match r {
            Ok(s) => in_bounds(mem@.len(), ptr as int, 32) && s == sigaction_at(mem@, ptr as int),
            Err(e) => !in_bounds(mem@.len(), ptr as int, 32) && e == -EFAULT,
        },
{
    let b: Vec<u8> = match guest_slice(mem, ptr, SIGACTION_SIZE) {
        Ok(b) => b,
        Err(e) => {
            return Err(e);
        },
    };
    proof {
        assert(b@.subrange(0, 4) =~= window(mem@, ptr as int, 4));
        assert(b@.subrange(4, 8) =~= window(mem@, ptr + 4, 4));
        assert(b@.subrange(8, 16) =~= window(mem@, ptr + 8, 8));
        assert(b@.subrange(24, 28) =~= window(mem@, ptr + 24, 4));
    }
    Ok(
        SigAction {
            handler: read_le(b.as_slice(), 0, 4),
            flags: read_le(b.as_slice(), 4, 4),
            mask: read_le(b.as_slice(), 8, 8),
            restorer: read_le(b.as_slice(), 24, 4),
        },
    )
}

/// `rt_sigaction(signum, act, oldact, ..)`: record what is to happen on a signal, and
/// tell what was recorded. Either address may be zero.
pub fn rt_sigaction(s: &mut SignalState, mem: &mut [u8], a: [i64; 6]) -> (r: i64)
    requires
        old(s)@.wf(),
        old(mem)@.len() <= GUEST_LIMIT,
    ensures
        (SignalAfter { ret: r as int, signals: final(s)@, mem: final(mem)@ })
            == rt_sigaction_after(old(s)@, old(mem)@, a),
        final(s)@.wf(),
        final(mem)@.len() == old(mem)@.len(),
{
    let signum: i32 = a[0] as i32;
    if signum < 1 || signum > 64 {
        return -EINVAL;
    }
    if a[2] != 0 {
        let prev: SigAction = s.action(signum);
        match write_sigaction(mem, a[2], prev) {
            Ok(_) => {},
            Err(e) => {
                return e;
            },
        }
    }
    if a[1] != 0 {
        let act: SigAction = match read_sigaction(mem, a[1]) {
            Ok(x) => x,
            Err(e) => {
                return e;
            },
        };
        s.actions.insert(signum, act);
        assert(s@ =~= (SignalModel { actions: old(s)@.actions.insert(signum, act), ..old(s)@ }));
    }
    0
}

/// The mask after `rt_sigprocmask`; none where `how` is not known.
pub open spec fn mask_after(mask: u64, how: i64, set: u64) -> Option<u64> {
    if how == SIG_BLOCK {
        Some(mask | set)
    } else if how == SIG_UNBLOCK {
        Some(mask & !set)
    } else if how == SIG_SETMASK {
        Some(set)
    } else {
        None
    }
}

/// What `rt_sigprocmask` does.
pub open spec fn rt_sigprocmask_after(s: SignalModel, m: Seq<u8>, a: [i64; 6]) -> SignalAfter {
    let told = if a[2] != 0 {
        splice(m, a[2] as int, le(s.mask as nat, 8))
    } else {
        m
    };
    if a[2] != 0 && !in_bounds(m.len(), a[2] as int, 8) {
        SignalAfter { ret: -EFAULT, signals: s, mem: m }
    } else if a[1] == 0 {
        SignalAfter { ret: 0, signals: s, mem: told }
    } else if !in_bounds(m.len(), a[1] as int, 8) {
        SignalAfter { ret: -EFAULT, signals: s, mem: told }
    } else {
        match mask_after(s.mask, a[0], word_at(told, a[1] as int, 8) as u64) {
            Some(mask) => SignalAfter {
                ret: 0,
                signals: SignalModel { mask, ..s },
                mem: told,
            },
            None => SignalAfter { ret: -EINVAL, signals: s, mem: told },
        }
    }
}

/// `rt_sigprocmask(how, set, oldset, ..)`: change the mask of blocked signals, and
/// tell what it was. Either address may be zero.
pub fn rt_sigprocmask(s: &mut SignalState, mem: &mut [u8], a: [i64; 6]) -> (r: i64)
    requires
        old(s)@.wf(),
    ensures
        (SignalAfter { ret: r as int, signals: final(s)@, mem: final(mem)@ })
            == rt_sigprocmask_after(old(s)@, old(mem)@, a),
        final(s)@.wf(),
        final(mem)@.len() == old(mem)@.len(),
{
    if a[2] != 0 {
        let mut b: Vec<u8> = Vec::new();
        push_le(&mut b, s.mask, 8);
        assert(b@ =~= le(s@.mask as nat, 8));
        match guest_write(mem, a[2], b.as_slice()) {
            Ok(_) => {},
            Err(e) => {
                return e;
            },
        }
    }
    if a[1] != 0 {
        let set: u64 = match guest_word(mem, a[1], 8) {
            Ok(w) => w,
            Err(e) => {
                return e;
            },
        };
        if a[0] == SIG_BLOCK {
            s.mask = s.mask | set;
        } else if a[0] == SIG_UNBLOCK {
            s.mask = s.mask & !set;
        } else if a[0] == SIG_SETMASK {
            s.mask = set;
        } else {
            return -EINVAL;
        }
    }
    0
}

/// The record that stands for the alternate stack: all zero where none is set.
pub open spec fn stack_record(s: SignalModel) -> Seq<u8> {
    match s.alt_stack {
        Some(b) => b,
        None => zeros(SIGALTSTACK_SIZE as nat),
    }
}

/// What `sigaltstack` does.
pub open spec fn sigaltstack_after(s: SignalModel, m: Seq<u8>, a: [i64; 6]) -> SignalAfter {
    let told = if a[1] != 0 {
        splice(m, a[1] as int, stack_record(s))
    } else {
        m
    };
    let record = window(told, a[0] as int, SIGALTSTACK_SIZE as int);
    let flags = int32(word_at(told, a[0] + 8, 4)) as i32;
    if a[1] != 0 && !in_bounds(m.len(), a[1] as int, SIGALTSTACK_SIZE as int) {
        SignalAfter { ret: -EFAULT, signals: s, mem: m }
    } else if a[0] == 0 {
        SignalAfter { ret: 0, signals: s, mem: told }
    } else if !in_bounds(m.len(), a[0] as int, SIGALTSTACK_SIZE as int) {
        SignalAfter { ret: -EFAULT, signals: s, mem: told }
    } else {
        SignalAfter {
            ret: 0,
            signals: SignalModel {
                alt_stack: if flags & SS_DISABLE != 0 {
                    None
                } else {
                    Some(record)
                },
                ..s
            },
            mem: told,
        }
    }
}

/// `sigaltstack(ss, old_ss)`: set the alternate stack or take it away, and tell what
/// it was. Either address may be zero.
pub fn sigaltstack(s: &mut SignalState, mem: &mut [u8], a: [i64; 6]) -> (r: i64)
    requires
        old(s)@.wf(),
    ensures
        (SignalAfter { ret: r as int, signals: final(s)@, mem: final(mem)@ })
            == sigaltstack_after(old(s)@, old(mem)@, a),
        final(s)@.wf(),
        final(mem)@.len() == old(mem)@.len(),
{
    if a[1] != 0 {
        let b: Vec<u8> = match &s.alt_stack {
            Some(b) => slice_to_vec(b.as_slice()),
            None => {
                let mut z: Vec<u8> = Vec::new();
                push_zeros(&mut z, SIGALTSTACK_SIZE as usize);
                z
            },
        };
        assert(b@ =~= stack_record(s@));
        match guest_write(mem, a[1], b.as_slice()) {
            Ok(_) => {},
            Err(e) => {
                return e;
            },
        }
    }
    if a[0] != 0 {
        let record: Vec<u8> = match guest_slice(mem, a[0], SIGALTSTACK_SIZE) {
            Ok(b) => b,
            Err(e) => {
                return e;
            },
        };
        proof {
            pow256_values();
            assert(record@.subrange(8, 12) =~= window(mem@, a[0] + 8, 4));
        }
        let flags: i32 = to_int32(read_le(record.as_slice(), 8, 4) as u32);
        if flags & SS_DISABLE != 0 {
            s.alt_stack = None;
        } else {
            s.alt_stack = Some(record);
        }
    }
    0
}

/// `rt_sigreturn()`: no handler is ever run, so there is nothing to return from.
pub fn rt_sigreturn() -> (r: i64)
    ensures
        r == 0,
{
    0
}

/// A queued `SIGKILL` or `SIGSTOP` cannot be held off: not by the mask, not by a
/// recorded action, not by what is queued before it.
pub proof fn kill_is_not_held_off(s: SignalModel, q: Seq<i32>, i: int)
    requires
        0 <= i < q.len(),
        q[i] == SIGKILL || q[i] == SIGSTOP,
    ensures
        delivery(s, q).0 != DeliveryAction::Ignore,
        verdict(s, q[i]) == Verdict::Act(DeliveryAction::Terminate(q[i])),
    decreases q.len(),
{
    if i > 0 {
        assert(q.drop_first()[i - 1] == q[i]);
        kill_is_not_held_off(s, q.drop_first(), i - 1);
    }
}

/// Blocked signals stay pending, in order, and do nothing.
pub proof fn blocked_signals_wait(s: SignalModel, q: Seq<i32>)
    requires
        forall|i: int| 0 <= i < q.len() ==> verdict(s, #[trigger] q[i]) == Verdict::Keep,
    ensures
        delivery(s, q) == (DeliveryAction::Ignore, q),
    decreases q.len(),
{
    if q.len() > 0 {
        let rest = q.drop_first();
        assert forall|i: int| 0 <= i < rest.len() implies verdict(s, #[trigger] rest[i])
            == Verdict::Keep by {
            assert(rest[i] == q[i + 1]);
        }
        blocked_signals_wait(s, rest);
        assert(q[0] == q[0]);
        assert(verdict(s, q[0]) == Verdict::Keep);
        assert(seq![q[0]] + rest =~= q);
    }
}

/// The first signal that acts takes effect, those before it that are blocked and
/// those after it stay, in order.
pub proof fn first_to_act_ends_the_walk(
    s: SignalModel,
    blocked: Seq<i32>,
    signo: i32,
    tail: Seq<i32>,
    a: DeliveryAction,
)
    requires
        forall|i: int| 0 <= i < blocked.len() ==> verdict(s, #[trigger] blocked[i]) == Verdict::Keep,
        verdict(s, signo) == Verdict::Act(a),
    ensures
        delivery(s, blocked + seq![signo] + tail) == (a, blocked + tail),
    decreases blocked.len(),
{
    let q = blocked + seq![signo] + tail;
    if blocked.len() == 0 {
        assert(q[0] == signo);
        assert(q.drop_first() =~= tail);
        assert(blocked + tail =~= tail);
    } else {
        let rest = blocked.drop_first();
        assert forall|i: int| 0 <= i < rest.len() implies verdict(s, #[trigger] rest[i])
            == Verdict::Keep by {
            assert(rest[i] == blocked[i + 1]);
        }
        first_to_act_ends_the_walk(s, rest, signo, tail, a);
        assert(q.drop_first() =~= rest + seq![signo] + tail);
        assert(q[0] == blocked[0]);
        assert(seq![q[0]] + (rest + tail) =~= blocked + tail);
    }
}

/// Asking for an action after recording one gives the one that was recorded, for
/// handlers, flags and restorers of 32 bits.
pub proof fn recorded_action_is_told(m: Seq<u8>, ptr: int, s: SigAction)
    requires
        in_bounds(m.len(), ptr, SIGACTION_SIZE as int),
        s.handler <= u32::MAX,
        s.flags <= u32::MAX,
        s.restorer <= u32::MAX,
    ensures
        sigaction_at(sigaction_put(m, ptr, s), ptr) == s,
{
    pow256_values();
    le_round_trip(s.handler as nat, 4);
    le_round_trip(s.flags as nat, 4);
    le_round_trip(s.mask as nat, 8);
    le_round_trip(s.restorer as nat, 4);
    let after = sigaction_put(m, ptr, s);
    assert(window(after, ptr, 4) =~= le(s.handler as nat, 4));
    assert(window(after, ptr + 4, 4) =~= le(s.flags as nat, 4));
    assert(window(after, ptr + 8, 8) =~= le(s.mask as nat, 8));
    assert(window(after, ptr + 24, 4) =~= le(s.restorer as nat, 4));
}

/// Blocking signals and unblocking the same ones leaves none of them blocked, and
/// every other as it was.
pub proof fn unblocking_undoes_blocking(mask: u64, set: u64)
    ensures
        mask_after(mask, SIG_BLOCK, set) matches Some(blocked) && mask_after(
            blocked,
            SIG_UNBLOCK,
            set,
        ) == Some(mask & !set),
{
    assert((mask | set) & !set == mask & !set) by (bit_vector);
}

} // verus!
