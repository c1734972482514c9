//! Event counters: `read` drains one, `write` adds to it.

use vstd::prelude::*;
use crate::bytes::le;
use crate::bytes::le_len;
use crate::bytes::push_le;
use crate::bytes::to_word64;
use crate::bytes::word64;
use crate::errno::EAGAIN;
use crate::errno::EBADF;
use crate::errno::EINVAL;
use crate::fd::lowest_free;
use crate::fd::EventFdInner;
use crate::fd::FdModel;
use crate::fd::FdTable;
use crate::fd::Resource;
use crate::mem::bounds_answer;
use crate::mem::guest_word;
use crate::mem::guest_write;
use crate::mem::word_at;
use crate::mem::written;

verus! {

broadcast use le_len;

pub const NR_EVENTFD2: u32 = 290;
pub const NR_EVENTFD: u32 = 284;

pub const EFD_CLOEXEC: i32 = 0o2000000;
pub const EFD_NONBLOCK: i32 = 0o4000;
pub const EFD_SEMAPHORE: i32 = 0o0001;

/// What a read of the counter gives: its value, or `-EAGAIN` where it is zero and
/// the descriptor must not block. A blocking read of zero gives zero.
pub open spec fn drain_result(e: EventFdInner) -> Result<u64, i64> {
    if e.counter == 0 && e.nonblock {
        Err((-EAGAIN) as i64)
    } else {
        Ok(e.counter)
    }
}

/// The counter after a read.
pub open spec fn drained(e: EventFdInner) -> EventFdInner {
    EventFdInner { counter: 0, ..e }
}

/// The counter after `addend` was added. It stops at the largest number.
pub open spec fn raised(e: EventFdInner, addend: u64) -> EventFdInner {
    EventFdInner {
        counter: if e.counter + addend > u64::MAX {
            u64::MAX
        } else {
            (e.counter + addend) as u64
        },
        ..e
    }
}

/// Drain the counter.
pub fn eventfd_read(e: &mut EventFdInner) -> (r: Result<u64, i64>)
    ensures
        r == drain_result(*old(e)),
        *final(e) == drained(*old(e)),
{
    let v: u64 = e.counter;
    if v == 0 {
        return if e.nonblock {
            Err(-EAGAIN)
        } else {
            Ok(0)
        };
    }
    e.counter = 0;
    Ok(v)
}

/// Add to the counter; the new value is the result.
pub fn eventfd_write(e: &mut EventFdInner, addend: u64) -> (r: u64)
    ensures
        *final(e) == raised(*old(e), addend),
        r == final(e).counter,
{
    let new: u64 = match e.counter.checked_add(addend) {
        Some(n) => n,
        None => u64::MAX,
    };
    e.counter = new;
    new
}

/// A buffer for a counter must hold eight bytes.
pub fn require_u64_buf(buf_len: i64) -> (r: Result<(), i64>)
    ensures
        r == (if buf_len < 8 {
            Err((-EINVAL) as i64)
        } else {
            Ok(())
        }),
{
    if buf_len < 8 {
        Err(-EINVAL)
    } else {
        Ok(())
    }
}

/// The table with a new counter in it, under its lowest free descriptor.
pub open spec fn eventfd_opened(f: FdModel, initval: u64, nonblock: bool) -> FdModel {
    let n = f.next_id;
    f.with_eventfd(n, EventFdInner { counter: initval, nonblock }).numbered().bind(
        lowest_free(f.slots, 3),
        Resource::EventFd(n),
    )
}

/// What `eventfd2` does. Of the flags only `EFD_NONBLOCK` has an effect.
pub open spec fn eventfd2_after(f: FdModel, a: [i64; 6]) -> (int, FdModel) {
    (
        lowest_free(f.slots, 3) as int,
        eventfd_opened(f, word64(a[0]) as u64, (a[1] as i32) & EFD_NONBLOCK != 0),
    )
}

/// `eventfd2(initval, flags)`: a new counter. Of the flags only `EFD_NONBLOCK` has
/// an effect.
pub fn eventfd2(fds: &mut FdTable, a: [i64; 6]) -> (r: i64)
    requires
        old(fds)@.wf(),
        old(fds)@.room(1),
    ensures
        (r as int, final(fds)@) == eventfd2_after(old(fds)@, a),
        final(fds)@.wf(),
{
    let initval: u64 = to_word64(a[0]);
    let nonblock: bool = (a[1] as i32) & EFD_NONBLOCK != 0;
    let n: u64 = fds.add_eventfd(EventFdInner { counter: initval, nonblock });
    let fd: u32 = fds.insert(Resource::EventFd(n));
    fd as i64
}

/// `eventfd(initval)`: the older call, with the same result.
pub fn eventfd(fds: &mut FdTable, a: [i64; 6]) -> (r: i64)
    requires
        old(fds)@.wf(),
        old(fds)@.room(1),
    ensures
        (r as int, final(fds)@) == eventfd2_after(old(fds)@, a),
        final(fds)@.wf(),
{
    eventfd2(fds, a)
}

/// The counter that `fd` names.
pub open spec fn counter_at(f: FdModel, fd: u32) -> Option<u64> {
    match f.at(fd as int) {
        Some(Resource::EventFd(n)) => Some(n),
        _ => None,
    }
}

/// What a read of the counter `fd` names leaves behind.
pub open spec fn counter_read_after(
    f: FdModel,
    m: Seq<u8>,
    fd: u32,
    buf_ptr: i64,
    buf_len: i64,
) -> (int, FdModel, Seq<u8>) {
    if buf_len < 8 {
        (-EINVAL, f, m)
    } else {
        match counter_at(f, fd) {
            None => (-EBADF, f, m),
            Some(n) => {
                let e = f.eventfds[n];
                let g = f.with_eventfd(n, drained(e));
                match drain_result(e) {
                    Err(c) => (c as int, g, m),
                    Ok(v) => match bounds_answer(m.len(), buf_ptr as int, 8) {
                        Ok(_) => (8, g, written(m, buf_ptr as int, le(v as nat, 8))),
                        Err(c) => (c as int, g, m),
                    },
                }
            },
        }
    }
}

/// Drain the counter `fd` names into the eight bytes at `buf_ptr`. The counter is
/// drained even where the bytes cannot be written.
pub fn eventfd_read_compat(
    fds: &mut FdTable,
    mem: &mut [u8],
    fd: u32,
    buf_ptr: i64,
    buf_len: i64,
) -> (r: i64)
    requires
        old(fds)@.wf(),
    ensures
        (r as int, final(fds)@, final(mem)@) == counter_read_after(
            old(fds)@,
            old(mem)@,
            fd,
            buf_ptr,
            buf_len,
        ),
        final(fds)@.wf(),
        final(mem)@.len() == old(mem)@.len(),
{
    match require_u64_buf(buf_len) {
        Ok(_) => {},
        Err(e) => {
            return e;
        },
    }
    let n: u64 = match fds.get(fd) {
        Ok(Resource::EventFd(n)) => n,
        Ok(_) => {
            return -EBADF;
        },
        Err(e) => {
            return e;
        },
    };
    let mut e: EventFdInner = fds.event_counter(n);
    let val: Result<u64, i64> = eventfd_read(&mut e);
    fds.put_eventfd(n, e);
    match val {
        Err(c) => c,
        Ok(v) => {
            let mut b: Vec<u8> = Vec::new();
            push_le(&mut b, v, 8);
            assert(b@ =~= le(v as nat, 8));
            match guest_write(mem, buf_ptr, b.as_slice()) {
                Ok(_) => 8,
                Err(c) => c,
            }
        },
    }
}

/// What a write to the counter `fd` names leaves behind.
pub open spec fn counter_write_after(
    f: FdModel,
    m: Seq<u8>,
    fd: u32,
    buf_ptr: i64,
    buf_len: i64,
) -> (int, FdModel) {
    if buf_len < 8 {
        (-EINVAL, f)
    } else {
        match bounds_answer(m.len(), buf_ptr as int, 8) {
            Err(c) => (c as int, f),
            Ok(_) => match counter_at(f, fd) {
                None => (-EBADF, f),
                Some(n) => (
                    8,
                    f.with_eventfd(
                        n,
                        raised(f.eventfds[n], word_at(m, buf_ptr as int, 8) as u64),
                    ),
                ),
            },
        }
    }
}

/// Add the eight bytes at `buf_ptr` to the counter that `fd` names.
pub fn eventfd_write_compat(
    fds: &mut FdTable,
    mem: &[u8],
    fd: u32,
    buf_ptr: i64,
    buf_len: i64,
) -> (r: i64)
    requires
        old(fds)@.wf(),
    ensures
        (r as int, final(fds)@) == counter_write_after(old(fds)@, mem@, fd, buf_ptr, buf_len),
        final(fds)@.wf(),
{
    match require_u64_buf(buf_len) {
        Ok(_) => {},
        Err(e) => {
            return e;
        },
    }
    let addend: u64 = match guest_word(mem, buf_ptr, 8) {
        Ok(v) => v,
        Err(e) => {
            return e;
        },
    };
    match fds.get(fd) {
        Ok(Resource::EventFd(n)) => {
            let mut e: EventFdInner = fds.event_counter(n);
            let _ = eventfd_write(&mut e, addend);
            fds.put_eventfd(n, e);
            8
        },
        Ok(_) => -EBADF,
        Err(e) => e,
    }
}

/// What was written into an empty counter is what the next read gives, and that
/// read leaves the counter empty.
pub proof fn write_then_read_drains(e: EventFdInner, addend: u64)
    requires
        e.counter == 0,
        addend > 0,
    ensures
        drain_result(raised(e, addend)) == Ok::<u64, i64>(addend),
        drained(raised(e, addend)) == e,
{
}

/// A counter adds up what is written into it, in any order, and never wraps.
pub proof fn writes_add_up(e: EventFdInner, x: u64, y: u64)
    ensures
        raised(raised(e, x), y) == raised(raised(e, y), x),
        raised(e, x).counter >= e.counter,
        e.counter + x + y <= u64::MAX ==> raised(raised(e, x), y).counter == e.counter + x + y,
{
}

} // verus!
