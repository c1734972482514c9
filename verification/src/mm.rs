//! The allocator behind `mmap`.
//!
//! Mappings are whole pages of an area that starts at a fixed address and grows by
//! arenas. A mapping takes the lowest run of free pages that is long enough.

use vstd::prelude::*;
use crate::errno::EINVAL;
use crate::errno::ENOMEM;
use crate::errno::ENOSYS;

verus! {

pub const MAP_PRIVATE: i32 = 0x02;
pub const MAP_ANONYMOUS: i32 = 0x20;

/// The size of a page of a mapping.
pub const PAGE_SIZE: usize = 4096;

/// The size of an arena.
pub const ARENA_SIZE: usize = 0x4_0000;

/// The number of pages in an arena.
pub const ARENA_PAGES: u64 = 64;

/// Where the first arena starts.
pub const ARENA_BASE: u64 = 0x10_0000;

/// The most pages that the arenas may have: they end before the last address.
pub const MAX_PAGES: u64 = 0xf_fec0;

/// The size of a page of guest memory, by which it grows.
pub const GROW_SIZE: u64 = 0x1_0000;

/// What a request for a mapping comes to.
#[derive(Clone, Copy, PartialEq, Eq, Structural, Debug)]
pub enum MmapResult {
    /// The mapping starts here.
    Mapped(u32),
    Refused(i64),
    /// The memory must grow by so many pages first.
    NeedGrow(u64),
}

/// Which pages are mapped.
pub struct LinearAllocator {
    /// For each page of the arenas, whether it is mapped.
    pub used: Vec<bool>,
    /// The number of pages up to the end of the highest mapping there has been.
    pub high: u64,
}

#[verifier::ext_equal]
pub struct MmModel {
    pub used: Seq<bool>,
    pub high: u64,
}

impl View for LinearAllocator {
    type V = MmModel;

    open spec fn view(&self) -> MmModel {
        MmModel { used: self.used@, high: self.high }
    }
}

impl MmModel {
    /// The arenas are whole and lie within the addresses, and so does every mapping.
    pub open spec fn wf(self) -> bool {
        &&& self.used.len() % ARENA_PAGES as nat == 0
        &&& self.used.len() <= MAX_PAGES
        &&& self.high <= self.used.len()
        &&& forall|i: int| self.high <= i < self.used.len() ==> !#[trigger] self.used[i]
    }
}

/// Whether the page is free. Pages beyond the arenas are.
pub open spec fn page_free(used: Seq<bool>, i: int) -> bool {
    i >= used.len() || !used[i]
}

/// Whether the `n` pages from `i` on are free.
pub open spec fn run_free(used: Seq<bool>, i: int, n: int) -> bool {
    forall|k: int| i <= k < i + n ==> #[trigger] page_free(used, k)
}

/// Whether `i` is where the lowest run of `n` free pages starts.
pub open spec fn is_first_fit(used: Seq<bool>, n: int, i: int) -> bool {
    &&& 0 <= i
    &&& run_free(used, i, n)
    &&& forall|j: int| 0 <= j < i ==> !#[trigger] run_free(used, j, n)
}

/// Where the lowest run of `n` free pages starts.
pub open spec fn first_fit(used: Seq<bool>, n: int) -> int {
    choose|i: int| is_first_fit(used, n, i)
}

proof fn first_fit_is(used: Seq<bool>, n: int, i: int)
    requires
        is_first_fit(used, n, i),
    ensures
        first_fit(used, n) == i,
{
    let j = first_fit(used, n);
    assert(is_first_fit(used, n, j));
    if j < i {
        assert(!run_free(used, j, n));
    }
    if i < j {
        assert(!run_free(used, i, n));
    }
}

/// There is always a run: beyond the arenas every page is free.
proof fn a_run_fits(used: Seq<bool>, n: int, from: int)
    requires
        0 <= from <= used.len(),
        forall|j: int| 0 <= j < from ==> !#[trigger] run_free(used, j, n),
    ensures
        is_first_fit(used, n, first_fit(used, n)),
        first_fit(used, n) <= used.len(),
    decreases used.len() - from,
{
    if run_free(used, from, n) {
        assert(is_first_fit(used, n, from));
        first_fit_is(used, n, from);
    } else if from < used.len() {
        a_run_fits(used, n, from + 1);
    } else {
        assert(forall|k: int| from <= k ==> #[trigger] page_free(used, k));
    }
}

/// There is a lowest run of free pages of any length, no later than the end of the arenas.
pub proof fn a_place_fits(used: Seq<bool>, n: int)
    ensures
        is_first_fit(used, n, first_fit(used, n)),
        first_fit(used, n) <= used.len(),
{
    a_run_fits(used, n, 0);
}

/// The number of pages that `len` bytes take.
pub open spec fn pages_for(len: int) -> int {
    (len + 4095) / 4096
}

/// `n` rounded up to whole arenas.
pub open spec fn whole_arenas(n: int) -> int {
    ((n + 63) / 64) * 64
}

/// The number of pages of the arenas, once they reach the end of the run.
pub open spec fn arenas_for(used: Seq<bool>, end: int) -> int {
    if end <= used.len() {
        used.len() as int
    } else {
        whole_arenas(end)
    }
}

/// The pages after the `n` pages from `i` on were mapped in arenas of `total` pages.
pub open spec fn pages_mapped(used: Seq<bool>, i: int, n: int, total: int) -> Seq<bool> {
    Seq::new(
        total as nat,
        |k: int|
            i <= k < i + n || (k < used.len() && used[k]),
    )
}

/// What a request for `len` bytes in a memory of `size` bytes comes to. Only private
/// anonymous mappings are made.
pub open spec fn mmap_after(mm: MmModel, size: int, len: int, flags: i32, fd: i64) -> (
    MmapResult,
    MmModel,
) {
    let n = pages_for(len);
    let i = first_fit(mm.used, n);
    let total = arenas_for(mm.used, i + n);
    let end = ARENA_BASE + total * 4096;
    if len <= 0 {
        (MmapResult::Refused((-EINVAL) as i64), mm)
    } else if flags != MAP_PRIVATE | MAP_ANONYMOUS || fd != -1 {
        (MmapResult::Refused((-ENOSYS) as i64), mm)
    } else if total > MAX_PAGES {
        (MmapResult::Refused((-ENOMEM) as i64), mm)
    } else if end > size {
        (MmapResult::NeedGrow(((end - size + GROW_SIZE - 1) / GROW_SIZE as int) as u64), mm)
    } else {
        (
            MmapResult::Mapped((ARENA_BASE + i * 4096) as u32),
            MmModel {
                used: pages_mapped(mm.used, i, n, total),
                high: if i + n > mm.high {
                    (i + n) as u64
                } else {
                    mm.high
                },
            },
        )
    }
}

/// The pages after the `n` pages from `i` on were given back.
pub open spec fn pages_unmapped(used: Seq<bool>, i: int, n: int) -> Seq<bool> {
    Seq::new(used.len(), |k: int| used[k] && !(i <= k < i + n))
}

/// What giving the `len` bytes at `addr` back does. They must be whole pages of the
/// arenas, the last of which may be given in part.
pub open spec fn munmap_after(mm: MmModel, addr: int, len: int) -> (int, MmModel) {
    let i = (addr - ARENA_BASE) / 4096;
    let n = pages_for(len);
    if len <= 0 || addr < ARENA_BASE || addr % 4096 != 0 || i + n > mm.used.len() {
        (-EINVAL, mm)
    } else {
        (0, MmModel { used: pages_unmapped(mm.used, i, n), ..mm })
    }
}

impl LinearAllocator {
    pub const FIRST_ARENA_BASE: u32 = 0x10_0000;

    /// Nothing is mapped.
    pub fn new() -> (r: LinearAllocator)
        ensures
            r@ == (MmModel { used: Seq::empty(), high: 0 }),
            r@.wf(),
    {
        let r: LinearAllocator = LinearAllocator { used: Vec::new(), high: 0 };
        assert(r@ =~= MmModel { used: Seq::empty(), high: 0 });
        r
    }

    /// Where the lowest run of `n` free pages starts.
    fn find_run(&self, n: u64) -> (r: u64)
        requires
            self@.wf(),
            0 < n,
        ensures
            r == first_fit(self@.used, n as int),
            r <= self@.used.len(),
            is_first_fit(self@.used, n as int, r as int),
    {
        let len: usize = self.used.len();
        let mut start: usize = 0;
        let mut i: usize = 0;
        let ghost used = self@.used;
        while i < len && ((i - start) as u64) < n
            invariant
                start <= i <= len,
                len == used.len(),
                used == self@.used,
                0 < n,
                i - start <= n,
                forall|k: int| start <= k < i ==> #[trigger] page_free(used, k),
                forall|j: int| 0 <= j < start ==> !#[trigger] run_free(used, j, n as int),
            ensures
                start <= i <= len,
                i == len || i - start == n,
                i - start <= n,
                forall|k: int| start <= k < i ==> #[trigger] page_free(used, k),
                forall|j: int| 0 <= j < start ==> !#[trigger] run_free(used, j, n as int),
            decreases len - i,
        {
            if self.used[i] {
                proof {
                    assert(!page_free(used, i as int));
                    assert forall|j: int| 0 <= j < i + 1 implies !#[trigger] run_free(
                        used,
                        j,
                        n as int,
                    ) by {
                        if start <= j {
                            assert(j <= i < j + n);
                        }
                    }
                }
                start = i + 1;
            } else {
                assert(page_free(used, i as int));
            }
            i = i + 1;
        }
        proof {
            assert forall|k: int| start <= k < start + n implies #[trigger] page_free(used, k) by {
                if k >= i {
                    assert(i == len);
                }
            }
            assert(run_free(used, start as int, n as int));
            first_fit_is(used, n as int, start as int);
        }
        start as u64
    }

    /// Map the `n` pages from `i` on, in arenas of `total` pages.
    fn mark(&mut self, i: u64, n: u64, total: u64)
        requires
            old(self)@.wf(),
            i + n <= total,
            old(self)@.used.len() <= total <= MAX_PAGES,
            total % ARENA_PAGES == 0,
        ensures
            final(self)@ == (MmModel {
                used: pages_mapped(old(self)@.used, i as int, n as int, total as int),
                high: if i + n > old(self)@.high {
                    (i + n) as u64
                } else {
                    old(self)@.high
                },
            }),
            final(self)@.wf(),
    {
        let ghost before = self@.used;
        let mut len: u64 = self.used.len() as u64;
        while len < total
            invariant
                before.len() <= len <= total,
                self@.used.len() == len,
                self.high == old(self).high,
                forall|k: int| 0 <= k < before.len() ==> self@.used[k] == before[k],
                forall|k: int| before.len() <= k < len ==> !self@.used[k],
            decreases total - len,
        {
            self.used.push(false);
            len = len + 1;
        }
        let mut k: u64 = i;
        while k < i + n
            invariant
                i <= k <= i + n <= total,
                self@.used.len() == total,
                self.used@.len() == total,
                total <= MAX_PAGES,
                self.high == old(self).high,
                before.len() <= total,
                forall|j: int|
                    0 <= j < total ==> #[trigger] self@.used[j] == (i <= j < k || (j
                        < before.len() && before[j])),
            decreases i + n - k,
        {
            let pages: usize = self.used.len();
            assert(k < pages);
            self.used.set(k as usize, true);
            k = k + 1;
        }
        if i + n > self.high {
            self.high = i + n;
        }
        assert(self@.used =~= pages_mapped(before, i as int, n as int, total as int));
    }

    /// A mapping of `len` bytes in a memory of `size` bytes.
    pub fn mmap(&mut self, size: u64, len: u64, _prot: i32, flags: i32, fd: i64, _off: i64) -> (r:
        MmapResult)
        requires
            old(self)@.wf(),
        ensures
            (r, final(self)@) == mmap_after(old(self)@, size as int, len as int, flags, fd),
            final(self)@.wf(),
    {
        if len == 0 {
            return MmapResult::Refused(-EINVAL);
        }
        if flags != MAP_PRIVATE | MAP_ANONYMOUS || fd != -1 {
            return MmapResult::Refused(-ENOSYS);
        }
        let n: u64 = len / 4096 + if len % 4096 != 0 {
            1
        } else {
            0
        };
        assert(n == pages_for(len as int));
        let i: u64 = self.find_run(n);
        let have: u64 = self.used.len() as u64;
        if n > MAX_PAGES || i + n > MAX_PAGES {
            proof {
                let end = i + n;
                assert(end > have);
                assert(whole_arenas(end as int) >= end);
            }
            return MmapResult::Refused(-ENOMEM);
        }
        let end: u64 = i + n;
        let total: u64 = if end <= have {
            have
        } else {
            ((end + 63) / 64) * 64
        };
        assert(total == arenas_for(self@.used, end as int));
        if total > MAX_PAGES {
            return MmapResult::Refused(-ENOMEM);
        }
        let top: u64 = ARENA_BASE + total * 4096;
        if top > size {
            return MmapResult::NeedGrow((top - size + GROW_SIZE - 1) / GROW_SIZE);
        }
        self.mark(i, n, total);
        MmapResult::Mapped((ARENA_BASE + i * 4096) as u32)
    }

    /// Give the `len` bytes at `addr` back.
    pub fn munmap(&mut self, addr: u32, len: u64) -> (r: i64)
        requires
            old(self)@.wf(),
        ensures
            (r as int, final(self)@) == munmap_after(old(self)@, addr as int, len as int),
            final(self)@.wf(),
    {
        let at: u64 = addr as u64;
        if len == 0 || at < ARENA_BASE || at % 4096 != 0 {
            return -EINVAL;
        }
        let i: u64 = (at - ARENA_BASE) / 4096;
        let n: u64 = len / 4096 + if len % 4096 != 0 {
            1
        } else {
            0
        };
        assert(n == pages_for(len as int));
        let have: u64 = self.used.len() as u64;
        if i > have || n > have - i {
            return -EINVAL;
        }
        let ghost before = self@.used;
        let mut k: u64 = i;
        while k < i + n
            invariant
                i <= k <= i + n <= have,
                have == before.len(),
                self@.used.len() == have,
                self.high == old(self).high,
                forall|j: int|
                    0 <= j < have ==> #[trigger] self@.used[j] == (before[j] && !(i <= j < k)),
            decreases i + n - k,
        {
            let pages: usize = self.used.len();
            assert(k < pages);
            self.used.set(k as usize, false);
            k = k + 1;
        }
        assert(self@.used =~= pages_unmapped(before, i as int, n as int));
        0
    }

    /// The end of the highest mapping there has been.
    pub fn brk(&self) -> (r: u32)
        requires
            self@.wf(),
        ensures
            r == ARENA_BASE + self@.high * 4096,
    {
        (ARENA_BASE + self.high * 4096) as u32
    }
}

/// A mapping lies inside the memory.
pub proof fn mapping_fits(mm: MmModel, size: int, len: int, flags: i32, fd: i64)
    ensures
        mmap_after(mm, size, len, flags, fd).0 matches MmapResult::Mapped(addr) ==> {
            &&& addr == ARENA_BASE + first_fit(mm.used, pages_for(len)) * 4096
            &&& addr >= ARENA_BASE
            &&& addr + len <= size
        },
{
    if mmap_after(mm, size, len, flags, fd).0 is Mapped {
        a_run_fits(mm.used, pages_for(len), 0);
    }
}

/// A new mapping takes pages that were free, and leaves every other page as it was: no
/// two mappings overlap.
pub proof fn mappings_do_not_overlap(mm: MmModel, size: int, len: int, flags: i32, fd: i64, k: int)
    requires
        mm.wf(),
        mmap_after(mm, size, len, flags, fd).0 is Mapped,
        0 <= k,
    ensures
        ({
            let (r, after) = mmap_after(mm, size, len, flags, fd);
            let i = first_fit(mm.used, pages_for(len));
            let taken = i <= k < i + pages_for(len);
            &&& taken ==> page_free(mm.used, k) && !page_free(after.used, k)
            &&& !taken ==> page_free(mm.used, k) == page_free(after.used, k)
        }),
{
    a_run_fits(mm.used, pages_for(len), 0);
}

/// What a mapping took can be given back, and is free again.
pub proof fn unmapping_frees_what_was_mapped(mm: MmModel, size: int, len: int, k: int)
    requires
        mm.wf(),
        0 < len,
        mmap_after(mm, size, len, MAP_PRIVATE | MAP_ANONYMOUS, (-1) as i64).0 is Mapped,
        0 <= k,
    ensures
        ({
            let (r, mapped) = mmap_after(mm, size, len, MAP_PRIVATE | MAP_ANONYMOUS, (-1) as i64);
            let i = first_fit(mm.used, pages_for(len));
            let (ret, after) = munmap_after(mapped, ARENA_BASE + i * 4096, len);
            &&& ret == 0
            &&& page_free(after.used, k) == page_free(mm.used, k)
        }),
{
    let n = pages_for(len);
    let i = first_fit(mm.used, n);
    a_run_fits(mm.used, n, 0);
    assert(run_free(mm.used, i, n));
    assert((ARENA_BASE + i * 4096 - ARENA_BASE) / 4096 == i);
    assert((ARENA_BASE + i * 4096) % 4096 == 0);
    if i <= k < i + n {
        assert(page_free(mm.used, k));
    }
}

} // verus!
