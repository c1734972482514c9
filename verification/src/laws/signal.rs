//! Signals: what is blocked, what is recorded, and what a pending signal does.

use vstd::prelude::*;
use crate::bytes::le;
use crate::bytes::le_len;
use crate::bytes::le_of_value;
use crate::bytes::le_round_trip;
use crate::bytes::pow256_values;
use crate::mem::in_bounds;
use crate::mem::window;
use crate::mem::word_at;
use crate::sys::signal::arm_outcome;
use crate::sys::signal::delivery;
use crate::sys::signal::masked;
use crate::sys::signal::rt_sigaction_after;
use crate::sys::signal::rt_sigprocmask_after;
use crate::sys::signal::sigaltstack_after;
use crate::sys::signal::DeliveryAction;
use crate::sys::signal::SigAction;
use crate::sys::signal::SignalModel;
use crate::sys::signal::SignalOutcome;

verus! {

broadcast use le_len;

/// Whether the two ranges of `n` bytes have none in common.
pub open spec fn apart(p: int, q: int, n: int) -> bool {
    p + n <= q || q + n <= p
}

proof fn mask_bits(mask: u64, set: u64, k: u64)
    requires
        k < 64,
    ensures
        ((mask | set) & (1u64 << k) != 0) == (mask & (1u64 << k) != 0 || set & (1u64 << k) != 0),
        ((mask & !set) & (1u64 << k) != 0) == (mask & (1u64 << k) != 0 && set & (1u64 << k) == 0),
        (mask & (1u64 << k) != 0) == ((mask >> k) & 1 == 1),
{
    assert((((mask | set) & (1u64 << k) != 0) == (mask & (1u64 << k) != 0 || set & (1u64 << k) != 0))
        && (((mask & !set) & (1u64 << k) != 0) == (mask & (1u64 << k) != 0 && set & (1u64 << k)
        == 0)) && ((mask & (1u64 << k) != 0) == ((mask >> k) & 1 == 1))) by (bit_vector)
        requires
            k < 64,
    ;
}

/// The bit of a mask that blocks a signal is the one before its number, counted from the
/// lowest, which is bit zero. No other number can be blocked.
pub proof fn a_bit_blocks_a_signal(mask: u64, signo: i32)
    ensures
        1 <= signo <= 64 ==> masked(mask, signo) == ((mask >> ((signo - 1) as u64)) & 1 == 1),
        !(1 <= signo <= 64) ==> !masked(mask, signo),
{
    if 1 <= signo <= 64 {
        mask_bits(mask, 0, (signo - 1) as u64);
    }
}

/// `rt_sigprocmask` blocks those of a set beside those that were blocked (0), unblocks
/// those (1), or blocks those alone (2). It tells what was blocked before, and changes
/// nothing else. Without a set it only tells.
pub proof fn a_mask_changes_as_asked(s: SignalModel, m: Seq<u8>, a: [i64; 6], signo: i32)
    requires
        a[1] != 0 ==> in_bounds(m.len(), a[1] as int, 8),
        a[2] != 0 ==> in_bounds(m.len(), a[2] as int, 8),
        a[1] != 0 && a[2] != 0 ==> apart(a[1] as int, a[2] as int, 8),
    ensures
        ({
            let r = rt_sigprocmask_after(s, m, a);
            let before = masked(s.mask, signo);
            let given = masked(word_at(m, a[1] as int, 8) as u64, signo);
            let after = masked(r.signals.mask, signo);
            &&& r.signals.actions == s.actions && r.signals.alt_stack == s.alt_stack
            &&& a[2] != 0 ==> word_at(r.mem, a[2] as int, 8) == s.mask
            &&& a[2] == 0 ==> r.mem == m
            &&& forall|k: int|
                0 <= k < m.len() && !(a[2] <= k < a[2] + 8) ==> #[trigger] r.mem[k] == m[k]
            &&& a[1] == 0 ==> r.ret == 0 && r.signals == s
            &&& a[1] != 0 && a[0] == 0 ==> r.ret == 0 && after == (before || given)
            &&& a[1] != 0 && a[0] == 1 ==> r.ret == 0 && after == (before && !given)
            &&& a[1] != 0 && a[0] == 2 ==> r.ret == 0 && after == given
            &&& a[1] != 0 && !(0 <= a[0] <= 2) ==> r.ret == -22 && r.signals == s
        }),
{
    pow256_values();
    let r = rt_sigprocmask_after(s, m, a);
    le_round_trip(s.mask as nat, 8);
    if a[2] != 0 {
        assert(window(r.mem, a[2] as int, 8) =~= le(s.mask as nat, 8));
    }
    if a[1] != 0 {
        le_of_value(window(m, a[1] as int, 8));
        assert(window(r.mem, a[1] as int, 8) =~= window(m, a[1] as int, 8));
        if 1 <= signo <= 64 {
            mask_bits(s.mask, word_at(m, a[1] as int, 8) as u64, (signo - 1) as u64);
        }
    }
}

/// A set, or a place to tell, outside of the memory is refused, and nothing is blocked or
/// unblocked.
pub proof fn a_mask_call_is_refused(s: SignalModel, m: Seq<u8>, a: [i64; 6])
    requires
        (a[1] != 0 && !in_bounds(m.len(), a[1] as int, 8)) || (a[2] != 0 && !in_bounds(
            m.len(),
            a[2] as int,
            8,
        )),
    ensures
        rt_sigprocmask_after(s, m, a).ret == -14,
        rt_sigprocmask_after(s, m, a).signals == s,
{
}

/// Whether the record at `p` holds the action: the handler first, the flags behind it,
/// then the mask, and the restorer behind its sixteen bytes.
pub open spec fn record_holds(m: Seq<u8>, p: int, x: SigAction) -> bool {
    &&& word_at(m, p, 4) == x.handler
    &&& word_at(m, p + 4, 4) == x.flags
    &&& word_at(m, p + 8, 8) == x.mask
    &&& word_at(m, p + 24, 4) == x.restorer
}

/// `rt_sigaction` records the action in its record for the one signal it names, and tells
/// the action that was recorded before. Every other signal keeps its action, and what is
/// blocked stays blocked.
pub proof fn an_action_is_recorded(s: SignalModel, m: Seq<u8>, a: [i64; 6], signo: i32)
    requires
        1 <= a[0] <= 64,
        a[1] != 0 ==> in_bounds(m.len(), a[1] as int, 32),
        a[2] != 0 ==> in_bounds(m.len(), a[2] as int, 32),
        a[1] != 0 && a[2] != 0 ==> apart(a[1] as int, a[2] as int, 32),
    ensures
        ({
            let r = rt_sigaction_after(s, m, a);
            let was = s.action(a[0] as i32);
            &&& r.ret == 0
            &&& a[1] != 0 ==> record_holds(m, a[1] as int, r.signals.action(a[0] as i32))
            &&& a[1] == 0 ==> r.signals == s
            &&& signo != a[0] ==> r.signals.action(signo) == s.action(signo)
            &&& r.signals.mask == s.mask && r.signals.alt_stack == s.alt_stack
            &&& a[2] != 0 && was.handler <= u32::MAX && was.flags <= u32::MAX && was.restorer
                <= u32::MAX ==> record_holds(r.mem, a[2] as int, was)
            &&& forall|k: int|
                0 <= k < m.len() && !(a[2] <= k < a[2] + 32) ==> #[trigger] r.mem[k] == m[k]
            &&& a[2] == 0 ==> r.mem == m
        }),
{
    pow256_values();
    let r = rt_sigaction_after(s, m, a);
    let was = s.action(a[0] as i32);
    if a[2] != 0 && was.handler <= u32::MAX && was.flags <= u32::MAX && was.restorer <= u32::MAX {
        crate::sys::signal::recorded_action_is_told(m, a[2] as int, was);
        let p = a[2] as int;
        le_of_value(window(r.mem, p, 4));
        le_of_value(window(r.mem, p + 4, 4));
        le_of_value(window(r.mem, p + 8, 8));
        le_of_value(window(r.mem, p + 24, 4));
    }
    if a[1] != 0 {
        let p = a[1] as int;
        le_of_value(window(m, p, 4));
        le_of_value(window(m, p + 4, 4));
        le_of_value(window(m, p + 8, 8));
        le_of_value(window(m, p + 24, 4));
        assert(window(r.mem, p, 4) =~= window(m, p, 4));
        assert(window(r.mem, p + 4, 4) =~= window(m, p + 4, 4));
        assert(window(r.mem, p + 8, 8) =~= window(m, p + 8, 8));
        assert(window(r.mem, p + 24, 4) =~= window(m, p + 24, 4));
    }
}

/// There are 64 signals: another number is refused, and so are records outside of the
/// memory, and nothing is recorded.
pub proof fn an_action_is_refused(s: SignalModel, m: Seq<u8>, a: [i64; 6])
    requires
        i32::MIN <= a[0] <= i32::MAX,
    ensures
        ({
            let r = rt_sigaction_after(s, m, a);
            &&& !(1 <= a[0] <= 64) ==> r.ret == -22 && r.signals == s && r.mem == m
            &&& 1 <= a[0] <= 64 && ((a[1] != 0 && !in_bounds(m.len(), a[1] as int, 32)) || (a[2] != 0
                && !in_bounds(m.len(), a[2] as int, 32))) ==> r.ret == -14 && r.signals == s
        }),
{
}

/// A stack that `sigaltstack` records is what the next call tells, byte for byte, unless
/// bit 2 of its flags takes it away. Without a recorded stack, zeros are told.
pub proof fn a_stack_is_told(s: SignalModel, m: Seq<u8>, a: [i64; 6], b: [i64; 6], k: int)
    requires
        a[0] != 0 && a[1] == 0 && b[0] == 0 && b[1] != 0,
        in_bounds(m.len(), a[0] as int, 24),
        in_bounds(m.len(), b[1] as int, 24),
        0 <= k < 24,
    ensures
        ({
            let set = sigaltstack_after(s, m, a);
            let told = sigaltstack_after(set.signals, m, b);
            let off = (crate::bytes::int32(word_at(m, a[0] + 8, 4)) as i32) & 2 != 0;
            &&& set.ret == 0 && set.mem == m && told.ret == 0 && told.signals == set.signals
            &&& told.mem[b[1] + k] == (if off {
                0u8
            } else {
                m[a[0] + k]
            })
            &&& forall|j: int|
                0 <= j < m.len() && !(b[1] <= j < b[1] + 24) ==> #[trigger] told.mem[j] == m[j]
            &&& set.signals.mask == s.mask && set.signals.actions == s.actions
        }),
{
}

/// Records of a stack outside of the memory are refused, and the stack stays.
pub proof fn a_stack_is_refused(s: SignalModel, m: Seq<u8>, a: [i64; 6])
    requires
        (a[0] != 0 && !in_bounds(m.len(), a[0] as int, 24)) || (a[1] != 0 && !in_bounds(
            m.len(),
            a[1] as int,
            24,
        )),
    ensures
        sigaltstack_after(s, m, a).ret == -14,
        sigaltstack_after(s, m, a).signals == s,
{
}

/// What the first of the pending signals does. Number zero is none. Signals 9 and 19 end
/// the guest whatever was recorded or blocked. Any other that is blocked waits on. One
/// that is ignored goes, and so do 17, 18, 23 and 28 where nothing is recorded; any other
/// ends the guest where nothing is recorded, and interrupts where a handler is.
pub proof fn the_first_signal_acts(s: SignalModel, signo: i32, q: Seq<i32>)
    ensures
        ({
            let (act, left) = delivery(s, seq![signo] + q);
            let (rest, kept) = delivery(s, q);
            let handler = s.action(signo).handler;
            let fatal = signo == 9 || signo == 19;
            let mild = signo == 17 || signo == 18 || signo == 23 || signo == 28;
            let free = signo != 0 && !fatal && !masked(s.mask, signo);
            &&& signo == 0 ==> act == rest && left == kept
            &&& fatal ==> act == DeliveryAction::Terminate(signo) && left == q
            &&& signo != 0 && !fatal && masked(s.mask, signo) ==> act == rest && left == seq![signo]
                + kept
            &&& free && handler == 1 ==> act == rest && left == kept
            &&& free && handler == 0 && mild ==> act == rest && left == kept
            &&& free && handler == 0 && !mild ==> act == DeliveryAction::Terminate(signo) && left
                == q
            &&& free && handler > 1 ==> act == DeliveryAction::Interrupt && left == q
        }),
{
    assert((seq![signo] + q).drop_first() =~= q);
}

/// Without pending signals nothing happens, and only then does a wait go on undisturbed:
/// whatever acts interrupts it.
pub proof fn whatever_acts_interrupts(s: SignalModel, act: DeliveryAction)
    ensures
        delivery(s, Seq::empty()) == (DeliveryAction::Ignore, Seq::<i32>::empty()),
        arm_outcome(act) == SignalOutcome::Nothing <==> act == DeliveryAction::Ignore,
        arm_outcome(act) == SignalOutcome::Interrupted <==> act != DeliveryAction::Ignore,
{
}

} // verus!
