//! Mappings of memory.

use vstd::prelude::*;
use crate::bytes::push_zeros;
use crate::bytes::zeros;
use crate::errno::EINVAL;
use crate::errno::ENOMEM;
use crate::mem::guest_write;
use crate::mem::written;
use crate::mm::mapping_fits;
use crate::mm::mmap_after;
use crate::mm::munmap_after;
use crate::mm::LinearAllocator;
use crate::mm::MmModel;
use crate::mm::MmapResult;
use crate::mm::ARENA_BASE;

verus! {

pub const NR_MMAP: u32 = 9;
pub const NR_MUNMAP: u32 = 11;
pub const NR_MPROTECT: u32 = 10;
pub const NR_MADVISE: u32 = 28;
pub const NR_BRK: u32 = 12;

/// What is left to do of an `mmap`.
#[derive(Clone, Copy, PartialEq, Eq, Structural, Debug)]
pub enum MmapStep {
    Done(i64),
    /// Let the memory grow by so many pages; `mmap_grown` goes on.
    Grow(u64),
}

/// What an `mmap` leaves behind.
pub struct MmapAfter {
    pub step: MmapStep,
    pub mm: MmModel,
    pub mem: Seq<u8>,
}

/// What `mmap` does with the memory as it is: a new mapping is all zeros.
pub open spec fn mmap_call(mm: MmModel, m: Seq<u8>, a: [i64; 6]) -> MmapAfter {
    let (r, after) = mmap_after(mm, m.len() as int, a[1] as int, a[3] as i32, a[4]);
    match r {
        MmapResult::Mapped(addr) => MmapAfter {
            step: MmapStep::Done(addr as i64),
            mm: after,
            mem: written(m, addr as int, zeros(a[1] as nat)),
        },
        MmapResult::Refused(e) => MmapAfter { step: MmapStep::Done(e), mm: after, mem: m },
        MmapResult::NeedGrow(n) => MmapAfter { step: MmapStep::Grow(n), mm: after, mem: m },
    }
}

/// `mmap(addr, len, prot, flags, fd, off)`. The address is no more than a hint and has no
/// effect.
pub fn mmap(mm: &mut LinearAllocator, mem: &mut [u8], a: [i64; 6]) -> (r: MmapStep)
    requires
        old(mm)@.wf(),
    ensures
        (MmapAfter { step: r, mm: final(mm)@, mem: final(mem)@ }) == mmap_call(
            old(mm)@,
            old(mem)@,
            a,
        ),
        final(mm)@.wf(),
        final(mem)@.len() == old(mem)@.len(),
{
    if a[1] <= 0 {
        return MmapStep::Done(-EINVAL);
    }
    let size: u64 = mem.len() as u64;
    match mm.mmap(size, a[1] as u64, a[2] as i32, a[3] as i32, a[4], a[5]) {
        MmapResult::Mapped(addr) => {
            let mut z: Vec<u8> = Vec::new();
            proof {
                mapping_fits(old(mm)@, size as int, a[1] as int, a[3] as i32, a[4]);
            }
            push_zeros(&mut z, a[1] as usize);
            assert(z@ =~= zeros(a[1] as nat));
            let _ = guest_write(mem, addr as i64, z.as_slice());
            MmapStep::Done(addr as i64)
        },
        MmapResult::Refused(e) => MmapStep::Done(e),
        MmapResult::NeedGrow(n) => MmapStep::Grow(n),
    }
}

/// What `mmap` does after the memory was to grow.
pub open spec fn mmap_grown_after(mm: MmModel, m: Seq<u8>, a: [i64; 6], grown: bool) -> MmapAfter {
    let next = mmap_call(mm, m, a);
    if !grown || next.step is Grow {
        MmapAfter { step: MmapStep::Done((-ENOMEM) as i64), mm, mem: m }
    } else {
        next
    }
}

/// Go on with an `mmap` after the memory was to grow. It gives up where the memory did
/// not grow, or not enough.
pub fn mmap_grown(mm: &mut LinearAllocator, mem: &mut [u8], a: [i64; 6], grown: bool) -> (r: i64)
    requires
        old(mm)@.wf(),
    ensures
        (MmapAfter { step: MmapStep::Done(r), mm: final(mm)@, mem: final(mem)@ })
            == mmap_grown_after(old(mm)@, old(mem)@, a, grown),
        final(mm)@.wf(),
        final(mem)@.len() == old(mem)@.len(),
{
    if !grown {
        return -ENOMEM;
    }
    match mmap(mm, mem, a) {
        MmapStep::Done(r) => r,
        MmapStep::Grow(_) => -ENOMEM,
    }
}

/// What `munmap` does.
pub open spec fn munmap_call(mm: MmModel, a: [i64; 6]) -> (int, MmModel) {
    if !(0 <= a[0] <= u32::MAX) || a[1] < 0 {
        (-EINVAL, mm)
    } else {
        munmap_after(mm, a[0] as int, a[1] as int)
    }
}

/// `munmap(addr, len)`.
pub fn munmap(mm: &mut LinearAllocator, a: [i64; 6]) -> (r: i64)
    requires
        old(mm)@.wf(),
    ensures
        (r as int, final(mm)@) == munmap_call(old(mm)@, a),
        final(mm)@.wf(),
{
    if a[0] < 0 || a[0] > 0xffff_ffff || a[1] < 0 {
        return -EINVAL;
    }
    mm.munmap(a[0] as u32, a[1] as u64)
}

/// `mprotect(..)` has no effect.
pub fn mprotect() -> (r: i64)
    ensures
        r == 0,
{
    0
}

/// `madvise(..)` has no effect.
pub fn madvise() -> (r: i64)
    ensures
        r == 0,
{
    0
}

/// What `brk` answers.
pub open spec fn brk_answer(mm: MmModel) -> int {
    ARENA_BASE + mm.high * 4096
}

/// `brk(..)`: the end of the highest mapping there has been.
pub fn brk(mm: &LinearAllocator, _a: [i64; 6]) -> (r: i64)
    requires
        mm@.wf(),
    ensures
        r == brk_answer(mm@),
{
    mm.brk() as i64
}

/// A new mapping is all zeros, and the rest of the memory stays as it was.
pub proof fn new_mapping_is_zero(mm: MmModel, m: Seq<u8>, a: [i64; 6], k: int)
    requires
        mmap_after(mm, m.len() as int, a[1] as int, a[3] as i32, a[4]).0 is Mapped,
        0 <= k < m.len(),
    ensures
        ({
            let r = mmap_call(mm, m, a);
            &&& r.step matches MmapStep::Done(addr) && addr >= ARENA_BASE && r.mem[k] == (if addr
                <= k < addr + a[1] {
                0u8
            } else {
                m[k]
            })
        }),
{
    mapping_fits(mm, m.len() as int, a[1] as int, a[3] as i32, a[4]);
}

} // verus!
