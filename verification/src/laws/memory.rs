//! The memory of the guest: how numbers stand in it, and what is mapped.

use vstd::prelude::*;
use crate::bytes::int16;
use crate::bytes::int32;
use crate::bytes::int64;
use crate::bytes::le_len;
use crate::bytes::le_value;
use crate::mem::in_bounds;
use crate::mem::text_at;
use crate::mem::text_is_unique;
use crate::mem::window;
use crate::mem::word_at;
use crate::mem::written;
use crate::mm::first_fit;
use crate::mm::mapping_fits;
use crate::mm::mappings_do_not_overlap;
use crate::mm::page_free;
use crate::mm::MmModel;
use crate::sys::memory::brk_answer;
use crate::sys::memory::mmap_call;
use crate::sys::memory::mmap_grown_after;
use crate::sys::memory::munmap_call;
use crate::sys::memory::new_mapping_is_zero;
use crate::sys::memory::MmapStep;

verus! {

broadcast use le_len;

/// A number stands in the memory with its low byte first, and a signed number in two's
/// complement.
pub proof fn numbers_start_with_their_low_byte(m: Seq<u8>, p: int)
    requires
        in_bounds(m.len(), p, 8),
    ensures
        word_at(m, p, 1) == m[p],
        word_at(m, p, 2) == m[p] + 0x100 * m[p + 1],
        word_at(m, p, 4) == m[p] + 0x100 * m[p + 1] + 0x1_0000 * m[p + 2] + 0x100_0000 * m[p + 3],
        word_at(m, p, 8) == word_at(m, p, 4) + 0x1_0000_0000 * word_at(m, p + 4, 4),
        int16(word_at(m, p, 2)) == (if m[p + 1] < 0x80 {
            word_at(m, p, 2) as int
        } else {
            word_at(m, p, 2) - 0x1_0000
        }),
        int32(word_at(m, p, 4)) == (if m[p + 3] < 0x80 {
            word_at(m, p, 4) as int
        } else {
            word_at(m, p, 4) - 0x1_0000_0000
        }),
        int64(word_at(m, p, 8)) == (if m[p + 7] < 0x80 {
            word_at(m, p, 8) as int
        } else {
            word_at(m, p, 8) - 0x1_0000_0000_0000_0000
        }),
{
    reveal_with_fuel(le_value, 9);
    let w = window(m, p, 8);
    assert(window(m, p, 1).drop_first() =~= Seq::empty());
    four(m, p);
    four(m, p + 4);
    let s1 = w.drop_first();
    let s2 = s1.drop_first();
    let s3 = s2.drop_first();
    let s4 = s3.drop_first();
    assert(s4 =~= window(m, p + 4, 4));
    assert(w[0] == m[p] && s1[0] == m[p + 1] && s2[0] == m[p + 2] && s3[0] == m[p + 3]);
    let t = window(m, p, 2);
    assert(t[0] == m[p] && t.drop_first()[0] == m[p + 1]);
    assert(t.drop_first().drop_first() =~= Seq::empty());
}

proof fn four(m: Seq<u8>, p: int)
    requires
        in_bounds(m.len(), p, 4),
    ensures
        word_at(m, p, 4) == m[p] + 0x100 * m[p + 1] + 0x1_0000 * m[p + 2] + 0x100_0000 * m[p + 3],
{
    reveal_with_fuel(le_value, 5);
    let w = window(m, p, 4);
    let s1 = w.drop_first();
    let s2 = s1.drop_first();
    let s3 = s2.drop_first();
    assert(w[0] == m[p] && s1[0] == m[p + 1] && s2[0] == m[p + 2] && s3[0] == m[p + 3]);
    assert(s3.drop_first() =~= Seq::empty());
}

/// Bytes that are written stand where they were put and nowhere else; a write that does
/// not fit changes nothing.
pub proof fn writes_land(m: Seq<u8>, p: int, b: Seq<u8>, k: int)
    requires
        0 <= k < m.len(),
    ensures
        written(m, p, b).len() == m.len(),
        0 <= p && p + b.len() <= m.len() && p <= k < p + b.len() ==> written(m, p, b)[k] == b[k - p],
        0 <= p && p + b.len() <= m.len() && !(p <= k < p + b.len()) ==> written(m, p, b)[k] == m[k],
        p < 0 || p + b.len() > m.len() ==> written(m, p, b) == m,
{
}

/// A text ends before the first zero byte, which must come among its first bytes.
pub proof fn a_text_ends_at_its_zero(m: Seq<u8>, p: int, max: int, n: int)
    requires
        0 <= p,
        0 <= n < max,
        p + n < m.len(),
        m[p + n] == 0,
        forall|k: int| p <= k < p + n ==> m[k] != 0,
        vstd::utf8::valid_utf8(window(m, p, n)),
    ensures
        text_at(m, p, max) == Some(window(m, p, n)),
{
    let s = window(m, p, n);
    assert(crate::mem::is_text(m, p, max, s));
    let t = choose|t: Seq<u8>| crate::mem::is_text(m, p, max, t);
    assert(crate::mem::is_text(m, p, max, t));
    text_is_unique(m, p, max, s, t);
}

/// Where a page of the arenas starts.
pub open spec fn page_start(k: int) -> int {
    0x10_0000 + 4096 * k
}

/// Whether any byte of page `k` is among the `len` bytes at `addr`.
pub open spec fn touches(addr: int, len: int, k: int) -> bool {
    addr < page_start(k + 1) && page_start(k) < addr + len
}

/// A new mapping starts on a page, lies in the memory, and holds zeros. The pages that it
/// touches were free and are taken; every other page, and every other byte, is as it was.
/// It is the lowest place with that many free pages. `brk` answers no less than its end.
pub proof fn a_mapping_is_new(mm: MmModel, m: Seq<u8>, a: [i64; 6], k: int, j: int)
    requires
        mm.wf(),
        mmap_call(mm, m, a).step matches MmapStep::Done(r) && r >= 0,
        0 <= k,
        0 <= j < m.len(),
    ensures
        ({
            let r = mmap_call(mm, m, a);
            &&& r.step matches MmapStep::Done(addr) && {
                &&& (addr - 0x10_0000) % 4096 == 0
                &&& addr >= 0x10_0000
                &&& addr + a[1] <= m.len()
                &&& touches(addr as int, a[1] as int, k) ==> page_free(mm.used, k) && !page_free(
                    r.mm.used,
                    k,
                )
                &&& !touches(addr as int, a[1] as int, k) ==> page_free(mm.used, k) == page_free(
                    r.mm.used,
                    k,
                )
                &&& r.mem[j] == (if addr <= j < addr + a[1] {
                    0u8
                } else {
                    m[j]
                })
                &&& brk_answer(r.mm) >= addr + a[1]
                &&& brk_answer(r.mm) >= brk_answer(mm)
                &&& brk_answer(r.mm) == brk_answer(mm) || brk_answer(r.mm) < addr + a[1] + 4096
                &&& page_start(k) < addr ==> exists|i: int|
                    touches(page_start(k), a[1] as int, i) && !#[trigger] page_free(mm.used, i)
            }
        }),
{
    let len = a[1] as int;
    let size = m.len() as int;
    let n = crate::mm::pages_for(len);
    let i = first_fit(mm.used, n);
    mapping_fits(mm, size, len, a[3] as i32, a[4]);
    new_mapping_is_zero(mm, m, a, j);
    mappings_do_not_overlap(mm, size, len, a[3] as i32, a[4], k);
    assert(crate::mm::is_first_fit(mm.used, n, i)) by {
        crate::mm::a_place_fits(mm.used, n);
    }
    assert(touches(page_start(i), len, k) == (i <= k < i + n));
    if k < i {
        assert(!crate::mm::run_free(mm.used, k, n));
        let x = choose|x: int| k <= x < k + n && !page_free(mm.used, x);
        assert(touches(page_start(k), len, x));
    }
}

/// Only private anonymous mappings (flags 0x22, no file) of some length are made.
pub proof fn a_mapping_is_refused(mm: MmModel, m: Seq<u8>, a: [i64; 6])
    ensures
        ({
            let r = mmap_call(mm, m, a);
            &&& a[1] <= 0 ==> r.step == MmapStep::Done((-22) as i64) && r.mm == mm && r.mem == m
            &&& a[1] > 0 && (a[3] as i32 != 0x22 || a[4] != -1) ==> r.step == MmapStep::Done(
                (-38) as i64,
            ) && r.mm == mm && r.mem == m
            &&& a[1] > 0 && a[3] as i32 == 0x22 && a[4] == -1 ==> match r.step {
                MmapStep::Done(x) => x >= 0 || (x == -12 && r.mm == mm && r.mem == m),
                MmapStep::Grow(_) => r.mm == mm && r.mem == m,
            }
        }),
{
    assert(0x02i32 | 0x20i32 == 0x22) by (bit_vector);
}

/// A mapping that needs more memory asks for as many pieces of 65536 bytes as it takes,
/// and no more: with them it is made, with one less it is not. Where the memory does not
/// grow, there is no mapping.
pub proof fn a_mapping_grows_the_memory(mm: MmModel, m: Seq<u8>, a: [i64; 6], big: Seq<u8>)
    requires
        mm.wf(),
        mmap_call(mm, m, a).step is Grow,
    ensures
        mmap_call(mm, m, a).step matches MmapStep::Grow(n) && {
            &&& n > 0
            &&& big.len() == m.len() + n * 0x1_0000 ==> (mmap_grown_after(
                mm,
                big,
                a,
                true,
            ).step matches MmapStep::Done(r) && r >= 0x10_0000 && mmap_grown_after(mm, big, a, true)
                == mmap_call(mm, big, a))
            &&& big.len() == m.len() + (n - 1) * 0x1_0000 ==> mmap_call(mm, big, a).step is Grow
        },
        mmap_grown_after(mm, m, a, false).step == MmapStep::Done((-12) as i64),
        mmap_grown_after(mm, m, a, false).mm == mm,
        mmap_grown_after(mm, m, a, false).mem == m,
        mmap_grown_after(mm, m, a, true).step == MmapStep::Done((-12) as i64),
        mmap_grown_after(mm, m, a, true).mm == mm,
{
    let len = a[1] as int;
    let n = crate::mm::pages_for(len);
    crate::mm::a_place_fits(mm.used, n);
}

/// `munmap` takes the mapping off the pages that its bytes touch and off no other. The
/// bytes start on a page and lie in the arenas; otherwise nothing is given back.
pub proof fn unmapping_gives_back(mm: MmModel, a: [i64; 6], k: int)
    requires
        mm.wf(),
        0 <= k,
    ensures
        ({
            let (r, after) = munmap_call(mm, a);
            let fine = a[1] > 0 && a[0] >= 0x10_0000 && a[0] <= u32::MAX && (a[0] - 0x10_0000) % 4096
                == 0 && a[0] + a[1] <= page_start(mm.used.len() as int);
            &&& fine ==> r == 0 && page_free(after.used, k) == (page_free(mm.used, k) || touches(
                a[0] as int,
                a[1] as int,
                k,
            )) && brk_answer(after) == brk_answer(mm)
            &&& !fine ==> r == -22 && after == mm
        }),
{
}

} // verus!
