//! Clocks and sleeps.

use vstd::prelude::*;
use crate::bytes::int64;
use crate::bytes::le;
use crate::bytes::le_len;
use crate::bytes::le_of_value;
use crate::bytes::le_round_trip;
use crate::bytes::pow256_values;
use crate::bytes::word64;
use crate::mem::in_bounds;
use crate::mem::window;
use crate::mem::word_at;
use crate::sys::time::clock_getres_after;
use crate::sys::time::clock_gettime_after;
use crate::sys::time::clock_nanosleep_after;
use crate::sys::time::gettimeofday_after;
use crate::sys::time::nanosleep_after;
use crate::sys::time::pair_told;
use crate::sys::time::shown;
use crate::sys::time::slept_after;
use crate::sys::time::sysinfo_after;
use crate::sys::time::sysinfo_image;
use crate::sys::time::times_after;
use crate::sys::time::SleepStep;

verus! {

broadcast use le_len;

/// Whether a call answered zero and left these two numbers at `p`, eight bytes each, and
/// every other byte as it was.
pub open spec fn two_told(r: (int, Seq<u8>), m: Seq<u8>, p: int, x: int, y: int) -> bool {
    &&& r.0 == 0
    &&& r.1.len() == m.len()
    &&& int64(word_at(r.1, p, 8)) == x
    &&& int64(word_at(r.1, p + 8, 8)) == y
    &&& forall|k: int| 0 <= k < m.len() && !(p <= k < p + 16) ==> #[trigger] r.1[k] == m[k]
}

proof fn pair_lands(m: Seq<u8>, p: int, x: i64, y: i64)
    requires
        in_bounds(m.len(), p, 16),
    ensures
        two_told(pair_told(m, p, x, y), m, p, x as int, y as int),
{
    pow256_values();
    le_round_trip(word64(x), 8);
    le_round_trip(word64(y), 8);
    let r = pair_told(m, p, x, y).1;
    assert(window(r, p, 8) =~= le(word64(x), 8));
    assert(window(r, p + 8, 8) =~= le(word64(y), 8));
}

/// `clock_gettime` tells seconds and nanoseconds: those of the wall clock for clock 0, and
/// the time since the start, to the nanosecond, for the clocks 1 to 4. No other is known.
pub proof fn a_clock_is_told(m: Seq<u8>, a: [i64; 6], wall: (i64, i64), elapsed: u64)
    ensures
        ({
            let r = clock_gettime_after(m, a, shown(a[0], wall, elapsed));
            let inside = in_bounds(m.len(), a[1] as int, 16);
            let sec = int64(word_at(r.1, a[1] as int, 8));
            let nsec = int64(word_at(r.1, a[1] + 8, 8));
            &&& !(0 <= a[0] <= 4) ==> r == (-22int, m)
            &&& 0 <= a[0] <= 4 && !inside ==> r == (-14int, m)
            &&& a[0] == 0 && inside ==> two_told(r, m, a[1] as int, wall.0 as int, wall.1 as int)
            &&& 1 <= a[0] <= 4 && inside ==> two_told(r, m, a[1] as int, sec, nsec) && sec
                * 1_000_000_000 + nsec == elapsed && 0 <= nsec < 1_000_000_000
        }),
{
    if in_bounds(m.len(), a[1] as int, 16) && 0 <= a[0] <= 4 {
        let t = shown(a[0], wall, elapsed)->Some_0;
        pair_lands(m, a[1] as int, t.0, t.1);
    }
}

/// Every clock counts single nanoseconds, which `clock_getres` tells where it has a place
/// for it.
pub proof fn clocks_count_nanoseconds(m: Seq<u8>, a: [i64; 6])
    ensures
        ({
            let r = clock_getres_after(m, a);
            let known = 0 <= a[0] <= 4;
            &&& !known ==> r == (-22int, m)
            &&& known && a[1] == 0 ==> r == (0int, m)
            &&& known && a[1] != 0 && !in_bounds(m.len(), a[1] as int, 16) ==> r == (-14int, m)
            &&& known && a[1] != 0 && in_bounds(m.len(), a[1] as int, 16) ==> two_told(
                r,
                m,
                a[1] as int,
                0,
                1,
            )
        }),
{
    if in_bounds(m.len(), a[1] as int, 16) {
        pair_lands(m, a[1] as int, 0, 1);
    }
}

/// What becomes of a record at `p` that asks for a sleep: its nanoseconds in all, where
/// both parts are in their range.
pub open spec fn asked_ns(m: Seq<u8>, p: int) -> Result<int, int> {
    let sec = int64(word_at(m, p, 8));
    let nsec = int64(word_at(m, p + 8, 8));
    if !in_bounds(m.len(), p, 16) {
        Err(-14)
    } else if 0 <= sec && 0 <= nsec < 1_000_000_000 {
        Ok(sec * 1_000_000_000 + nsec)
    } else {
        Err(-22)
    }
}

/// Whether the step is what a relative request comes to: a sleep of its length, or of the
/// longest that can be counted, with the place to tell what is left; or its refusal.
pub open spec fn sleeps(step: SleepStep, asked: Result<int, int>, left: i64) -> bool {
    match asked {
        Err(e) => step matches SleepStep::Done(r) && r == e,
        Ok(t) => step matches SleepStep::Sleep { ns, rem } && rem == left && (t <= u64::MAX ==> ns
            == t) && (t > u64::MAX ==> ns == u64::MAX),
    }
}

proof fn requests_are_read(m: Seq<u8>, p: int)
    ensures
        in_bounds(m.len(), p, 16) ==> word_at(m, p, 8) <= u64::MAX && word_at(m, p + 8, 8)
            <= u64::MAX,
{
    pow256_values();
    if in_bounds(m.len(), p, 16) {
        le_of_value(window(m, p, 8));
        le_of_value(window(m, p + 8, 8));
    }
}

/// `nanosleep` sleeps as long as its record asks for.
pub proof fn a_sleep_lasts_its_time(m: Seq<u8>, a: [i64; 6])
    ensures
        sleeps(nanosleep_after(m, a), asked_ns(m, a[0] as int), a[1]),
{
    requests_are_read(m, a[0] as int);
}

/// `clock_nanosleep` sleeps as long as its record asks for, or, with flag 1, until the
/// clock shows the moment of its record: no time at all where the moment has passed, and
/// otherwise for what is left until then. No other clock than 0 to 4 is known.
pub proof fn a_clock_sleep_lasts_its_time(m: Seq<u8>, a: [i64; 6], now: (i64, i64))
    ensures
        ({
            let step = clock_nanosleep_after(m, a, now);
            let asked = asked_ns(m, a[2] as int);
            let clock = now.0 * 1_000_000_000 + now.1;
            let until = (a[1] as i32) & 1 != 0;
            &&& !(0 <= a[0] <= 4) ==> (step matches SleepStep::Done(r) && r == -22)
            &&& 0 <= a[0] <= 4 && !until ==> sleeps(step, asked, a[3])
            &&& 0 <= a[0] <= 4 && until ==> match asked {
                Err(e) => step matches SleepStep::Done(r) && r == e,
                Ok(t) => {
                    &&& t <= clock ==> step == SleepStep::Done(0)
                    &&& clock < t <= clock + u64::MAX ==> step == (SleepStep::Sleep {
                        ns: (t - clock) as u64,
                        rem: 0,
                    })
                },
            }
        }),
{
    requests_are_read(m, a[2] as int);
}

/// A sleep that ends leaves nothing to sleep, and says so where it has a place for it.
pub proof fn nothing_is_left_to_sleep(m: Seq<u8>, rem: i64)
    ensures
        rem == 0 ==> slept_after(m, rem) == (0int, m),
        rem != 0 && in_bounds(m.len(), rem as int, 16) ==> two_told(
            slept_after(m, rem),
            m,
            rem as int,
            0,
            0,
        ),
        rem != 0 && !in_bounds(m.len(), rem as int, 16) ==> slept_after(m, rem) == (-14int, m),
{
    if in_bounds(m.len(), rem as int, 16) {
        pair_lands(m, rem as int, 0, 0);
    }
}

/// `gettimeofday` tells the seconds of the wall clock and its whole microseconds.
pub proof fn the_time_of_day_is_told(m: Seq<u8>, a: [i64; 6], wall: (i64, i64))
    requires
        0 <= wall.1 < 1_000_000_000,
    ensures
        ({
            let r = gettimeofday_after(m, a, wall);
            let usec = int64(word_at(r.1, a[0] + 8, 8));
            &&& !in_bounds(m.len(), a[0] as int, 16) ==> r == (-14int, m)
            &&& in_bounds(m.len(), a[0] as int, 16) ==> two_told(
                r,
                m,
                a[0] as int,
                wall.0 as int,
                usec,
            ) && usec * 1000 <= wall.1 < (usec + 1) * 1000
        }),
{
    if in_bounds(m.len(), a[0] as int, 16) {
        pair_lands(m, a[0] as int, wall.0, (wall.1 / 1000) as i64);
    }
}

/// `sysinfo` tells a second of uptime, memory that is all free, and one process, each at
/// its place; `times` tells four times zero. Neither touches another byte.
pub proof fn the_system_is_told(m: Seq<u8>, a: [i64; 6], k: int)
    requires
        0 <= k < m.len(),
    ensures
        ({
            let (r, n) = sysinfo_after(m, a);
            let p = a[0] as int;
            &&& p == 0 || !in_bounds(m.len(), p, 128) ==> r == -14 && n == m
            &&& p != 0 && in_bounds(m.len(), p, 128) ==> {
                &&& r == 0
                &&& word_at(n, p, 8) == 1
                &&& word_at(n, p + 32, 8) == 0x4000_0000
                &&& word_at(n, p + 40, 8) == word_at(n, p + 32, 8)
                &&& word_at(n, p + 104, 8) == 1
                &&& !(p <= k < p + 128) ==> n[k] == m[k]
            }
        }),
        ({
            let (r, n) = times_after(m, a);
            let p = a[0] as int;
            &&& p == 0 || !in_bounds(m.len(), p, 32) ==> r == -14 && n == m
            &&& p != 0 && in_bounds(m.len(), p, 32) ==> r == 0 && n[k] == (if p <= k < p + 32 {
                0u8
            } else {
                m[k]
            })
        }),
{
    pow256_values();
    le_round_trip(1, 8);
    le_round_trip(0x4000_0000, 8);
    let p = a[0] as int;
    if p != 0 && in_bounds(m.len(), p, 128) {
        let n = sysinfo_after(m, a).1;
        let s = sysinfo_image();
        assert(window(n, p, 8) =~= le(1, 8));
        assert(window(n, p + 32, 8) =~= le(0x4000_0000, 8));
        assert(window(n, p + 40, 8) =~= le(0x4000_0000, 8));
        assert(window(n, p + 104, 8) =~= le(1, 8));
    }
}

} // verus!
