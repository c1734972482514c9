//! Guest linear memory.
//!
//! A guest passes addresses and lengths as plain integers. Every access goes
//! through the bounds test of this module: a range that does not lie inside the
//! memory is refused with `-EFAULT` and the memory stays as it was.

use vstd::prelude::*;
use vstd::slice::slice_subrange;
use vstd::slice::slice_to_vec;
use crate::bytes::le_value;
use crate::bytes::pow256;
use crate::bytes::read_le;
use crate::errno::EFAULT;

verus! {

/// Whether the `len` bytes at `ptr` lie inside a memory of `size` bytes.
pub open spec fn in_bounds(size: nat, ptr: int, len: int) -> bool {
    0 <= ptr && 0 <= len && ptr + len <= size
}

/// `m` with the bytes from `at` on replaced by `b`.
pub open spec fn splice(m: Seq<u8>, at: int, b: Seq<u8>) -> Seq<u8> {
    Seq::new(m.len(), |i: int| if at <= i < at + b.len() { b[i - at] } else { m[i] })
}

/// The `len` bytes of `m` at `ptr`.
pub open spec fn window(m: Seq<u8>, ptr: int, len: int) -> Seq<u8> {
    m.subrange(ptr, ptr + len)
}

/// What a guest write of `b` at `ptr` leaves in the memory.
pub open spec fn written(m: Seq<u8>, ptr: int, b: Seq<u8>) -> Seq<u8> {
    if in_bounds(m.len(), ptr, b.len() as int) {
        splice(m, ptr, b)
    } else {
        m
    }
}

/// The answer of a bounds test: `Ok` exactly for a range inside the memory.
pub open spec fn bounds_answer(size: nat, ptr: int, len: int) -> Result<(), i64> {
    if in_bounds(size, ptr, len) {
        Ok(())
    } else {
        Err((-EFAULT) as i64)
    }
}

/// The number in the `n` bytes of `m` at `ptr`.
pub open spec fn word_at(m: Seq<u8>, ptr: int, n: int) -> nat {
    le_value(window(m, ptr, n))
}

/// A splice reads back as what was spliced in.
pub proof fn splice_reads_back(m: Seq<u8>, at: int, b: Seq<u8>)
    requires
        in_bounds(m.len(), at, b.len() as int),
    ensures
        window(splice(m, at, b), at, b.len() as int) == b,
{
    assert(window(splice(m, at, b), at, b.len() as int) =~= b);
}

/// A splice leaves every range that it does not touch as it was.
pub proof fn splice_leaves_the_rest(m: Seq<u8>, at: int, b: Seq<u8>, ptr: int, len: int)
    requires
        in_bounds(m.len(), at, b.len() as int),
        in_bounds(m.len(), ptr, len),
        ptr + len <= at || at + b.len() <= ptr,
    ensures
        window(splice(m, at, b), ptr, len) == window(m, ptr, len),
{
    assert(window(splice(m, at, b), ptr, len) =~= window(m, ptr, len));
}

/// A signed length as an index, when it is not negative and an index can hold it.
pub fn to_index(x: i64) -> (r: Option<usize>)
    ensures
        r == (if 0 <= x <= usize::MAX { Some(x as usize) } else { None }),
{
    if x < 0 || x as u64 > usize::MAX as u64 {
        None
    } else {
        Some(x as usize)
    }
}

/// Whether the `len` bytes at `ptr` lie inside a memory of `size` bytes.
pub fn check_range(size: usize, ptr: i64, len: i64) -> (r: Result<(), i64>)
    ensures
        r == bounds_answer(size as nat, ptr as int, len as int),
{
    if ptr < 0 || len < 0 {
        return Err(-EFAULT);
    }
    let room: u64 = size as u64;
    if ptr as u64 > room || len as u64 > room - ptr as u64 {
        return Err(-EFAULT);
    }
    Ok(())
}

/// A copy of the `len` bytes at `ptr`.
pub fn guest_slice(mem: &[u8], ptr: i64, len: i64) -> (r: Result<Vec<u8>, i64>)
    ensures
        match r {
            Ok(v) => in_bounds(mem@.len(), ptr as int, len as int) && v@ == window(
                mem@,
                ptr as int,
                len as int,
            ),
            Err(e) => !in_bounds(mem@.len(), ptr as int, len as int) && e == -EFAULT,
        },
{
    match check_range(mem.len(), ptr, len) {
        Ok(_) => {
            let at: usize = ptr as usize;
            let n: usize = len as usize;
            Ok(slice_to_vec(slice_subrange(mem, at, at + n)))
        },
        Err(e) => Err(e),
    }
}

/// Overwrite the bytes of `m` from `at` on by `b`.
pub fn copy_into(m: &mut [u8], at: usize, b: &[u8])
    requires
        at + b@.len() <= old(m)@.len(),
    ensures
        final(m)@ == splice(old(m)@, at as int, b@),
{
    let size: usize = m.len();
    let n: usize = b.len();
    let mut i: usize = 0;
    assert(m@ =~= splice(old(m)@, at as int, b@.take(0)));
    while i < n
        invariant
            n == b@.len(),
            i <= n,
            size == m@.len(),
            m@.len() == old(m)@.len(),
            at + n <= m@.len(),
            m@ == splice(old(m)@, at as int, b@.take(i as int)),
        decreases n - i,
    {
        m[at + i] = b[i];
        i = i + 1;
        assert(m@ =~= splice(old(m)@, at as int, b@.take(i as int)));
    }
    assert(b@.take(n as int) =~= b@);
}

/// Write `b` at `ptr`.
pub fn guest_write(mem: &mut [u8], ptr: i64, b: &[u8]) -> (r: Result<(), i64>)
    ensures
        r == bounds_answer(old(mem)@.len(), ptr as int, b@.len() as int),
        final(mem)@ == written(old(mem)@, ptr as int, b@),
        final(mem)@.len() == old(mem)@.len(),
{
    let n: usize = b.len();
    let size: usize = mem.len();
    if n > size {
        return Err(-EFAULT);
    }
    if ptr < 0 || ptr as u64 > (size - n) as u64 {
        return Err(-EFAULT);
    }
    copy_into(mem, ptr as usize, b);
    Ok(())
}

/// The number in the `n` bytes at `ptr`.
pub fn guest_word(mem: &[u8], ptr: i64, n: usize) -> (r: Result<u64, i64>)
    requires
        n <= 8,
    ensures
        match r {
            Ok(v) => in_bounds(mem@.len(), ptr as int, n as int) && v == word_at(
                mem@,
                ptr as int,
                n as int,
            ) && v < pow256(n as nat),
            Err(e) => !in_bounds(mem@.len(), ptr as int, n as int) && e == -EFAULT,
        },
{
    match check_range(mem.len(), ptr, n as i64) {
        Ok(_) => Ok(read_le(mem, ptr as usize, n)),
        Err(e) => Err(e),
    }
}

/// `n` is where the text at `ptr` ends: the first zero byte, at most `max` bytes
/// on and inside the memory.
pub open spec fn ends_at(m: Seq<u8>, ptr: int, max: int, n: int) -> bool {
    &&& 0 <= ptr
    &&& 0 <= n < max
    &&& ptr + n < m.len()
    &&& m[ptr + n] == 0
    &&& forall|i: int| ptr <= i < ptr + n ==> m[i] != 0
}

/// Whether `s` is the zero-terminated UTF-8 text at `ptr`, not counting the
/// terminator, which must stand among the first `max` bytes.
pub open spec fn is_text(m: Seq<u8>, ptr: int, max: int, s: Seq<u8>) -> bool {
    &&& ends_at(m, ptr, max, s.len() as int)
    &&& s == window(m, ptr, s.len() as int)
    &&& vstd::utf8::valid_utf8(s)
}

/// The text at `ptr`, if there is one.
pub open spec fn text_at(m: Seq<u8>, ptr: int, max: int) -> Option<Seq<u8>> {
    if exists|s: Seq<u8>| is_text(m, ptr, max, s) {
        Some(choose|s: Seq<u8>| is_text(m, ptr, max, s))
    } else {
        None
    }
}

/// There is at most one text at an address.
pub proof fn text_is_unique(m: Seq<u8>, ptr: int, max: int, s: Seq<u8>, t: Seq<u8>)
    requires
        is_text(m, ptr, max, s),
        is_text(m, ptr, max, t),
    ensures
        s == t,
{
    if s.len() < t.len() {
        assert(m[ptr + s.len()] == 0);
    } else if t.len() < s.len() {
        assert(m[ptr + t.len()] == 0);
    }
}

/// `std::str::from_utf8`: a byte string is accepted exactly when it is valid UTF-8.
#[verifier::external_body]
pub(crate) fn is_utf8(s: &[u8]) -> (r: bool)
    ensures
        r == vstd::utf8::valid_utf8(s@),
{
    std::str::from_utf8(s).is_ok()
}

/// Read the zero-terminated text at `ptr`. The search for the terminator stops
/// after `max` bytes; without one, and for text that is not UTF-8, the answer is
/// `-EFAULT`.
pub fn guest_str(mem: &[u8], ptr: i64, max: i64) -> (r: Result<Vec<u8>, i64>)
    ensures
        match r {
            Ok(s) => text_at(mem@, ptr as int, max as int) == Some(s@) && is_text(
                mem@,
                ptr as int,
                max as int,
                s@,
            ),
            Err(e) => text_at(mem@, ptr as int, max as int) is None && e == -EFAULT,
        },
{
    let size: usize = mem.len();
    if ptr < 0 || ptr as u64 >= size as u64 || max <= 0 {
        return Err(-EFAULT);
    }
    let start: usize = ptr as usize;
    let room: usize = size - start;
    let limit: usize = if (max as u64) < room as u64 { max as usize } else { room };
    let mut n: usize = 0;
    while n < limit && mem[start + n] != 0
        invariant
            n <= limit,
            start + limit <= size,
            size == mem@.len(),
            forall|i: int| start <= i < start + n ==> mem@[i] != 0,
        ensures
            n <= limit,
            forall|i: int| start <= i < start + n ==> mem@[i] != 0,
            n == limit || mem@[start + n] == 0,
        decreases limit - n,
    {
        n = n + 1;
    }
    if n == limit {
        return Err(-EFAULT);
    }
    let s: Vec<u8> = slice_to_vec(slice_subrange(mem, start, start + n));
    if !is_utf8(s.as_slice()) {
        proof {
            assert forall|t: Seq<u8>| !is_text(mem@, ptr as int, max as int, t) by {
                if is_text(mem@, ptr as int, max as int, t) {
                    if t.len() < n {
                        assert(mem@[start + t.len()] == 0);
                    }
                    assert(t =~= s@);
                }
            }
        }
        return Err(-EFAULT);
    }
    proof {
        assert(is_text(mem@, ptr as int, max as int, s@));
        let t = choose|t: Seq<u8>| is_text(mem@, ptr as int, max as int, t);
        text_is_unique(mem@, ptr as int, max as int, s@, t);
    }
    Ok(s)
}

} // verus!
