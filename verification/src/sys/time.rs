//! Clocks and sleeping.
//!
//! The monotonic clocks count from the start of the guest; the host says how many
//! nanoseconds have passed since.

use chrono::Utc;
use vstd::prelude::*;
use crate::bytes::le;
use crate::bytes::le_len;
use crate::bytes::push_le;
use crate::bytes::push_zeros;
use crate::bytes::to_word64;
use crate::bytes::word64;
use crate::bytes::zeros;
use crate::errno::EFAULT;
use crate::errno::EINVAL;
use crate::mem::guest_write;
use crate::mem::in_bounds;
use crate::mem::splice;
use crate::sys::futex::capped_u64;
use crate::sys::poll::int64_at;
use crate::sys::poll::int64_pair;

verus! {

broadcast use le_len;

pub const NR_CLOCK_GETTIME: u32 = 228;
pub const NR_GETTIMEOFDAY: u32 = 96;
pub const NR_NANOSLEEP: u32 = 35;
pub const NR_CLOCK_GETRES: u32 = 229;
pub const NR_CLOCK_NANOSLEEP: u32 = 230;
pub const NR_SYSINFO: u32 = 99;
pub const NR_TIMES: u32 = 100;

/// The size of a `struct sysinfo`, with room to spare.
pub const SYSINFO_SIZE: i64 = 128;
pub const SYSINFO_UPTIME_OFF: usize = 0;
pub const SYSINFO_TOTALRAM_OFF: usize = 32;
pub const SYSINFO_FREERAM_OFF: usize = 40;
pub const SYSINFO_PROCS_OFF: usize = 104;

/// The size of a `struct tms`.
pub const TMS_SIZE: i64 = 32;

pub const TIMER_ABSTIME: i32 = 1;

pub const CLOCK_REALTIME: i64 = 0;
pub const CLOCK_MONOTONIC: i64 = 1;
pub const CLOCK_MONOTONIC_RAW: i64 = 4;
pub const CLOCK_PROCESS_CPUTIME_ID: i64 = 2;
pub const CLOCK_THREAD_CPUTIME_ID: i64 = 3;

pub const TIMESPEC_SIZE: i64 = 16;
pub const TIMESPEC_SEC_OFF: usize = 0;
pub const TIMESPEC_NSEC_OFF: usize = 8;

pub const TIMEVAL_SIZE: i64 = 16;
pub const TIMEVAL_SEC_OFF: usize = 0;
pub const TIMEVAL_USEC_OFF: usize = 8;

/// Whether `(sec, nsec)` is a moment that the wall clock can show: not before 1970,
/// and not after the last year that the calendar knows.
pub open spec fn wall_time(sec: i64, nsec: i64) -> bool {
    0 <= sec < 9_000_000_000_000 && 0 <= nsec < 1_000_000_000
}

/// `Utc::now` of `chrono`, as the seconds and nanoseconds that `timestamp` and
/// `timestamp_subsec_nanos` give: some moment of the wall clock. Which moment it is
/// rests with the machine and is not said. `Utc::now` stops the program where the
/// clock of the machine stands before 1970.
#[verifier::external_body]
fn utc_now() -> (r: (i64, i64))
    ensures
        wall_time(r.0, r.1),
{
    let now = Utc::now();
    (now.timestamp(), now.timestamp_subsec_nanos() as i64)
}

/// Whether there is such a clock.
pub open spec fn known_clock(clockid: i64) -> bool {
    clockid == CLOCK_REALTIME || counts_from_start(clockid)
}

/// Whether the clock counts from the start of the guest.
pub open spec fn counts_from_start(clockid: i64) -> bool {
    clockid == CLOCK_MONOTONIC || clockid == CLOCK_MONOTONIC_RAW || clockid
        == CLOCK_PROCESS_CPUTIME_ID || clockid == CLOCK_THREAD_CPUTIME_ID
}

/// What a clock may show when the wall clock shows `wall` and `elapsed` nanoseconds
/// have passed since the start.
pub open spec fn shown(clockid: i64, wall: (i64, i64), elapsed: u64) -> Option<(i64, i64)> {
    if clockid == CLOCK_REALTIME {
        Some(wall)
    } else if counts_from_start(clockid) {
        Some(((elapsed / 1_000_000_000) as i64, (elapsed % 1_000_000_000) as i64))
    } else {
        None
    }
}

fn is_known(clockid: i64) -> (r: bool)
    ensures
        r == known_clock(clockid),
{
    clockid == CLOCK_REALTIME || clockid == CLOCK_MONOTONIC || clockid == CLOCK_MONOTONIC_RAW
        || clockid == CLOCK_PROCESS_CPUTIME_ID || clockid == CLOCK_THREAD_CPUTIME_ID
}

/// What the clock shows when the wall clock shows `wall`.
pub fn time_shown(clockid: i64, wall: (i64, i64), elapsed: u64) -> (r: Option<(i64, i64)>)
    ensures
        r == shown(clockid, wall, elapsed),
{
    if clockid == CLOCK_REALTIME {
        return Some(wall);
    }
    if !is_known(clockid) {
        return None;
    }
    Some(((elapsed / 1_000_000_000) as i64, (elapsed % 1_000_000_000) as i64))
}

/// What the clock shows now.
pub fn compute_time(clockid: i64, elapsed: u64) -> (r: Option<(i64, i64)>)
    ensures
        r is Some == known_clock(clockid),
        counts_from_start(clockid) ==> r == shown(clockid, (0, 0), elapsed),
        r matches Some((sec, nsec)) ==> sec >= 0 && 0 <= nsec < 1_000_000_000,
        clockid == CLOCK_REALTIME ==> (r matches Some((sec, nsec)) && wall_time(sec, nsec)),
{
    if clockid == CLOCK_REALTIME {
        return Some(utc_now());
    }
    time_shown(clockid, (0, 0), elapsed)
}

/// A pair of 64-bit integers.
pub open spec fn pair_image(x: i64, y: i64) -> Seq<u8> {
    le(word64(x), 8) + le(word64(y), 8)
}

/// The answer and the memory after the pair was written at `ptr`.
pub open spec fn pair_told(m: Seq<u8>, ptr: int, x: i64, y: i64) -> (int, Seq<u8>) {
    if in_bounds(m.len(), ptr, 16) {
        (0, splice(m, ptr, pair_image(x, y)))
    } else {
        (-EFAULT, m)
    }
}

fn tell_pair(mem: &mut [u8], ptr: i64, x: i64, y: i64) -> (r: i64)
    ensures
        (r as int, final(mem)@) == pair_told(old(mem)@, ptr as int, x, y),
        final(mem)@.len() == old(mem)@.len(),
{
    let mut b: Vec<u8> = Vec::new();
    push_le(&mut b, to_word64(x), 8);
    push_le(&mut b, to_word64(y), 8);
    assert(b@ =~= pair_image(x, y));
    match guest_write(mem, ptr, b.as_slice()) {
        Ok(_) => 0,
        Err(e) => e,
    }
}

/// What `clock_gettime` does when the clock shows `time`.
pub open spec fn clock_gettime_after(m: Seq<u8>, a: [i64; 6], time: Option<(i64, i64)>) -> (
    int,
    Seq<u8>,
) {
    match time {
        Some((sec, nsec)) => pair_told(m, a[1] as int, sec, nsec),
        None => (-EINVAL, m),
    }
}

/// Tell the guest the time that the clock shows.
pub fn tell_time(mem: &mut [u8], a: [i64; 6], time: Option<(i64, i64)>) -> (r: i64)
    ensures
        (r as int, final(mem)@) == clock_gettime_after(old(mem)@, a, time),
        final(mem)@.len() == old(mem)@.len(),
{
    match time {
        Some((sec, nsec)) => tell_pair(mem, a[1], sec, nsec),
        None => -EINVAL,
    }
}

/// `clock_gettime(clockid, timespec)`. What the wall clock shows is not said.
pub fn clock_gettime(mem: &mut [u8], a: [i64; 6], elapsed: u64) -> (r: i64)
    ensures
        final(mem)@.len() == old(mem)@.len(),
        exists|sec: i64, nsec: i64| #[trigger]
            wall_time(sec, nsec) && (r as int, final(mem)@) == clock_gettime_after(
                old(mem)@,
                a,
                shown(a[0], (sec, nsec), elapsed),
            ),
{
    let time: Option<(i64, i64)> = compute_time(a[0], elapsed);
    proof {
        if a[0] == CLOCK_REALTIME {
            let (sec, nsec) = time->Some_0;
            assert(wall_time(sec, nsec));
            assert(time == shown(a[0], (sec, nsec), elapsed));
        } else {
            assert(wall_time(0, 0));
            assert(time == shown(a[0], (0, 0), elapsed));
        }
    }
    tell_time(mem, a, time)
}

/// What `clock_getres` does: every clock counts nanoseconds.
pub open spec fn clock_getres_after(m: Seq<u8>, a: [i64; 6]) -> (int, Seq<u8>) {
    if !known_clock(a[0]) {
        (-EINVAL, m)
    } else if a[1] == 0 {
        (0, m)
    } else {
        pair_told(m, a[1] as int, 0, 1)
    }
}

/// `clock_getres(clockid, timespec)`.
pub fn clock_getres(mem: &mut [u8], a: [i64; 6]) -> (r: i64)
    ensures
        (r as int, final(mem)@) == clock_getres_after(old(mem)@, a),
        final(mem)@.len() == old(mem)@.len(),
{
    if !is_known(a[0]) {
        return -EINVAL;
    }
    if a[1] == 0 {
        return 0;
    }
    tell_pair(mem, a[1], 0, 1)
}

/// What is left to do of a sleep.
#[derive(Clone, Copy, PartialEq, Eq, Structural, Debug)]
pub enum SleepStep {
    Done(i64),
    /// Sleep for so many nanoseconds; `slept` finishes, and tells at `rem` that nothing
    /// is left, unless that is zero.
    Sleep { ns: u64, rem: i64 },
}

/// The seconds and nanoseconds that the `struct timespec` at `ptr` asks to sleep.
pub open spec fn request_at(m: Seq<u8>, ptr: int) -> Result<(int, int), i64> {
    let sec = int64_at(m, ptr);
    let nsec = int64_at(m, ptr + 8);
    if !in_bounds(m.len(), ptr, 16) {
        Err((-EFAULT) as i64)
    } else if nsec < 0 || nsec >= 1_000_000_000 || sec < 0 {
        Err((-EINVAL) as i64)
    } else {
        Ok((sec, nsec))
    }
}

/// A sleep of this length. One too long to count is the longest that can be counted.
pub open spec fn sleep_of(sec: int, nsec: int, rem: i64) -> SleepStep {
    SleepStep::Sleep { ns: capped_u64(capped_u64(sec * 1_000_000_000) + nsec), rem }
}

fn read_request(mem: &[u8], ptr: i64) -> (r: Result<(i64, i64), i64>)
    ensures
        match r {
            Ok((sec, nsec)) => request_at(mem@, ptr as int) == Ok::<(int, int), i64>(
                (sec as int, nsec as int),
            ) && sec >= 0 && 0 <= nsec < 1_000_000_000,
            Err(e) => request_at(mem@, ptr as int) == Err::<(int, int), i64>(e),
        },
{
    match int64_pair(mem, ptr) {
        Err(e) => Err(e),
        Ok((sec, nsec)) => {
            if nsec < 0 || nsec >= 1_000_000_000 || sec < 0 {
                return Err(-EINVAL);
            }
            Ok((sec, nsec))
        },
    }
}

fn start_sleep(sec: i64, nsec: i64, rem: i64) -> (r: SleepStep)
    requires
        sec >= 0,
        0 <= nsec < 1_000_000_000,
    ensures
        r == sleep_of(sec as int, nsec as int, rem),
{
    let s: u64 = sec as u64;
    let whole: u64 = if s > u64::MAX / 1_000_000_000 {
        u64::MAX
    } else {
        s * 1_000_000_000
    };
    let ns: u64 = if nsec as u64 > u64::MAX - whole {
        u64::MAX
    } else {
        whole + nsec as u64
    };
    SleepStep::Sleep { ns, rem }
}

/// The nanoseconds of a moment.
pub open spec fn total_ns(sec: int, nsec: int) -> int {
    sec * 1_000_000_000 + nsec
}

/// What `clock_nanosleep` does when the clock shows `time`. A moment that has passed is
/// not slept for. How long a moment is away is counted in 64 bits.
pub open spec fn clock_nanosleep_after(m: Seq<u8>, a: [i64; 6], time: (i64, i64)) -> SleepStep {
    if !known_clock(a[0]) {
        SleepStep::Done((-EINVAL) as i64)
    } else {
        match request_at(m, a[2] as int) {
            Err(e) => SleepStep::Done(e),
            Ok((sec, nsec)) => if (a[1] as i32) & TIMER_ABSTIME != 0 {
                let away = total_ns(sec, nsec) - total_ns(time.0 as int, time.1 as int);
                if away <= 0 {
                    SleepStep::Done(0)
                } else {
                    SleepStep::Sleep { ns: (away % 0x1_0000_0000_0000_0000) as u64, rem: 0 }
                }
            } else {
                sleep_of(sec, nsec, a[3])
            },
        }
    }
}

/// What a sleep on a clock that shows `time` does.
pub fn sleep_on_clock(mem: &[u8], a: [i64; 6], time: (i64, i64)) -> (r: SleepStep)
    requires
        time.0 >= 0,
        time.1 >= 0,
    ensures
        r == clock_nanosleep_after(mem@, a, time),
{
    if !is_known(a[0]) {
        return SleepStep::Done(-EINVAL);
    }
    let (sec, nsec): (i64, i64) = match read_request(mem, a[2]) {
        Ok(p) => p,
        Err(e) => {
            return SleepStep::Done(e);
        },
    };
    if (a[1] as i32) & TIMER_ABSTIME != 0 {
        let now: u128 = time.0 as u128 * 1_000_000_000 + time.1 as u128;
        let until: u128 = sec as u128 * 1_000_000_000 + nsec as u128;
        if until <= now {
            return SleepStep::Done(0);
        }
        let away: u128 = until - now;
        return SleepStep::Sleep { ns: (away % 0x1_0000_0000_0000_0000) as u64, rem: 0 };
    }
    start_sleep(sec, nsec, a[3])
}

/// `clock_nanosleep(clockid, flags, req, rem)`. What the wall clock shows is not said.
pub fn clock_nanosleep(mem: &[u8], a: [i64; 6], elapsed: u64) -> (r: SleepStep)
    ensures
        exists|sec: i64, nsec: i64| #[trigger]
            wall_time(sec, nsec) && r == clock_nanosleep_after(
                mem@,
                a,
                (match shown(a[0], (sec, nsec), elapsed) {
                    Some(t) => t,
                    None => (0, 0),
                }),
            ),
{
    let time: (i64, i64) = match compute_time(a[0], elapsed) {
        Some(t) => t,
        None => (0, 0),
    };
    proof {
        if a[0] == CLOCK_REALTIME {
            assert(wall_time(time.0, time.1));
            assert(shown(a[0], (time.0, time.1), elapsed) == Some(time));
        } else {
            assert(wall_time(0, 0));
        }
    }
    sleep_on_clock(mem, a, time)
}

/// What `nanosleep` does.
pub open spec fn nanosleep_after(m: Seq<u8>, a: [i64; 6]) -> SleepStep {
    match request_at(m, a[0] as int) {
        Err(e) => SleepStep::Done(e),
        Ok((sec, nsec)) => sleep_of(sec, nsec, a[1]),
    }
}

/// `nanosleep(req, rem)`.
pub fn nanosleep(mem: &[u8], a: [i64; 6]) -> (r: SleepStep)
    ensures
        r == nanosleep_after(mem@, a),
{
    match read_request(mem, a[0]) {
        Err(e) => SleepStep::Done(e),
        Ok((sec, nsec)) => start_sleep(sec, nsec, a[1]),
    }
}

/// What the end of a sleep leaves behind: at `rem`, unless that is zero, that nothing is
/// left to sleep.
pub open spec fn slept_after(m: Seq<u8>, rem: i64) -> (int, Seq<u8>) {
    if rem == 0 {
        (0, m)
    } else {
        pair_told(m, rem as int, 0, 0)
    }
}

/// Finish a sleep, which always sleeps to its end.
pub fn slept(mem: &mut [u8], rem: i64) -> (r: i64)
    ensures
        (r as int, final(mem)@) == slept_after(old(mem)@, rem),
        final(mem)@.len() == old(mem)@.len(),
{
    if rem == 0 {
        return 0;
    }
    tell_pair(mem, rem, 0, 0)
}

/// The seconds and microseconds that `gettimeofday` tells when the wall clock shows
/// `wall`.
pub open spec fn day_time(wall: (i64, i64)) -> (i64, i64) {
    (wall.0, (wall.1 / 1000) as i64)
}

/// What `gettimeofday` does when the wall clock shows `wall`.
pub open spec fn gettimeofday_after(m: Seq<u8>, a: [i64; 6], wall: (i64, i64)) -> (int, Seq<u8>) {
    pair_told(m, a[0] as int, day_time(wall).0, day_time(wall).1)
}

/// What `gettimeofday` does when the wall clock shows `wall`.
pub fn tell_day_time(mem: &mut [u8], a: [i64; 6], wall: (i64, i64)) -> (r: i64)
    requires
        wall_time(wall.0, wall.1),
    ensures
        (r as int, final(mem)@) == gettimeofday_after(old(mem)@, a, wall),
        final(mem)@.len() == old(mem)@.len(),
{
    tell_pair(mem, a[0], wall.0, wall.1 / 1000)
}

/// `gettimeofday(timeval, tz)`. What the wall clock shows is not said.
pub fn gettimeofday(mem: &mut [u8], a: [i64; 6]) -> (r: i64)
    ensures
        final(mem)@.len() == old(mem)@.len(),
        exists|sec: i64, nsec: i64| #[trigger]
            wall_time(sec, nsec) && (r as int, final(mem)@) == gettimeofday_after(
                old(mem)@,
                a,
                (sec, nsec),
            ),
{
    let wall: (i64, i64) = utc_now();
    assert(wall_time(wall.0, wall.1));
    tell_day_time(mem, a, wall)
}

/// A `struct sysinfo`: up for a second, a gigabyte of memory, all of it free, and one
/// process.
pub open spec fn sysinfo_image() -> Seq<u8> {
    le(1, 8) + zeros(24) + le(0x4000_0000, 8) + le(0x4000_0000, 8) + zeros(56) + le(1, 8) + zeros(
        16,
    )
}

/// What `sysinfo` does.
pub open spec fn sysinfo_after(m: Seq<u8>, a: [i64; 6]) -> (int, Seq<u8>) {
    if a[0] != 0 && in_bounds(m.len(), a[0] as int, SYSINFO_SIZE as int) {
        (0, splice(m, a[0] as int, sysinfo_image()))
    } else {
        (-EFAULT, m)
    }
}

/// `sysinfo(info)`.
pub fn sysinfo(mem: &mut [u8], a: [i64; 6]) -> (r: i64)
    ensures
        (r as int, final(mem)@) == sysinfo_after(old(mem)@, a),
        final(mem)@.len() == old(mem)@.len(),
{
    if a[0] == 0 {
        return -EFAULT;
    }
    let mut b: Vec<u8> = Vec::new();
    push_le(&mut b, 1, 8);
    push_zeros(&mut b, 24);
    push_le(&mut b, 0x4000_0000, 8);
    push_le(&mut b, 0x4000_0000, 8);
    push_zeros(&mut b, 56);
    push_le(&mut b, 1, 8);
    push_zeros(&mut b, 16);
    assert(b@ =~= sysinfo_image());
    match guest_write(mem, a[0], b.as_slice()) {
        Ok(_) => 0,
        Err(e) => e,
    }
}

/// What `times` does.
pub open spec fn times_after(m: Seq<u8>, a: [i64; 6]) -> (int, Seq<u8>) {
    if a[0] != 0 && in_bounds(m.len(), a[0] as int, TMS_SIZE as int) {
        (0, splice(m, a[0] as int, zeros(TMS_SIZE as nat)))
    } else {
        (-EFAULT, m)
    }
}

/// `times(buf)`: no processor time is counted.
pub fn times(mem: &mut [u8], a: [i64; 6]) -> (r: i64)
    ensures
        (r as int, final(mem)@) == times_after(old(mem)@, a),
        final(mem)@.len() == old(mem)@.len(),
{
    if a[0] == 0 {
        return -EFAULT;
    }
    let mut b: Vec<u8> = Vec::new();
    push_zeros(&mut b, TMS_SIZE as usize);
    assert(b@ =~= zeros(TMS_SIZE as nat));
    match guest_write(mem, a[0], b.as_slice()) {
        Ok(_) => 0,
        Err(e) => e,
    }
}

/// The fields of a `struct sysinfo` stand where the system lays them out.
pub proof fn sysinfo_field_offsets()
    ensures
        sysinfo_image().len() == SYSINFO_SIZE,
        sysinfo_image().subrange(0, 8) == le(1, 8),
        sysinfo_image().subrange(32, 40) == le(0x4000_0000, 8),
        sysinfo_image().subrange(40, 48) == le(0x4000_0000, 8),
        sysinfo_image().subrange(104, 112) == le(1, 8),
{
    let s = sysinfo_image();
    assert(s.subrange(0, 8) =~= le(1, 8));
    assert(s.subrange(32, 40) =~= le(0x4000_0000, 8));
    assert(s.subrange(40, 48) =~= le(0x4000_0000, 8));
    assert(s.subrange(104, 112) =~= le(1, 8));
}

/// The clocks that count from the start tell the nanoseconds since then, and so never go
/// back.
pub proof fn counting_clocks_never_go_back(
    clockid: i64,
    wall: (i64, i64),
    later_wall: (i64, i64),
    elapsed: u64,
    later: u64,
)
    requires
        counts_from_start(clockid),
        elapsed <= later,
    ensures
        ({
            let (sec, nsec) = shown(clockid, wall, elapsed)->Some_0;
            let (sec2, nsec2) = shown(clockid, later_wall, later)->Some_0;
            &&& total_ns(sec as int, nsec as int) == elapsed
            &&& 0 <= nsec < 1_000_000_000
            &&& total_ns(sec as int, nsec as int) <= total_ns(sec2 as int, nsec2 as int)
        }),
{
}

/// A moment is slept for exactly as long as it is away, if that can be counted; one
/// that has passed is not slept for.
pub proof fn absolute_sleep_ends_on_time(m: Seq<u8>, a: [i64; 6], time: (i64, i64))
    requires
        known_clock(a[0]),
        request_at(m, a[2] as int) is Ok,
        (a[1] as i32) & TIMER_ABSTIME != 0,
    ensures
        ({
            let (sec, nsec) = request_at(m, a[2] as int)->Ok_0;
            let away = total_ns(sec, nsec) - total_ns(time.0 as int, time.1 as int);
            &&& away <= 0 ==> clock_nanosleep_after(m, a, time) == SleepStep::Done(0)
            &&& 0 < away <= u64::MAX ==> clock_nanosleep_after(m, a, time) == SleepStep::Sleep {
                ns: away as u64,
                rem: 0,
            }
        }),
{
}

} // verus!
