//! Mappings of linear memory, and random bytes written to it.

use edge_libos::errno::{EFAULT, EINVAL, ENOSYS};
use edge_libos::mm::{LinearAllocator, MmapResult, ARENA_SIZE};
use edge_libos::sys::memory::{brk, madvise, mmap, mmap_grown, mprotect, munmap, MmapStep};
use edge_libos::sys::random::{getrandom, give_random};
use rand::rngs::SmallRng;
use rand::SeedableRng;

fn page() -> Vec<u8> {
    vec![0u8; 65536]
}

/// Maps as a host does: grows the memory where it is asked to.
fn map(mm: &mut LinearAllocator, mem: &mut Vec<u8>, a: [i64; 6]) -> i64 {
    match mmap(mm, mem, a) {
        MmapStep::Done(r) => r,
        MmapStep::Grow(n) => {
            let grown = mem.len() + n as usize * 65536;
            mem.resize(grown, 0);
            mmap_grown(mm, mem, a, true)
        }
    }
}

#[test]
fn mmap_returns_nonzero_and_zero_fills() {
    let mut mm = LinearAllocator::new();
    let mut mem = page();
    let base = map(&mut mm, &mut mem, [0, 4096, 3, 0x22, -1, 0]);
    assert!(base > 0);
    let at = base as usize;
    assert!(mem[at..at + 4096].iter().all(|b| *b == 0));
    let magic: u32 = 0x1234_5678;
    mem[at..at + 4].copy_from_slice(&magic.to_le_bytes());
    let observed = u32::from_le_bytes(mem[at..at + 4].try_into().unwrap());
    assert_eq!(observed, magic);
}

#[test]
fn munmap_then_mmap_works() {
    let mut mm = LinearAllocator::new();
    let mut mem = page();
    let a = map(&mut mm, &mut mem, [0, 8192, 3, 0x22, -1, 0]);
    assert!(a > 0);
    munmap(&mut mm, [a, 8192, 0, 0, 0, 0]);
    let second = map(&mut mm, &mut mem, [0, 4096, 3, 0x22, -1, 0]);
    assert!(second > 0, "second mmap after munmap must return a positive address (got {second})");
}

#[test]
fn mmap_rejects_zero_length() {
    let mut mm = LinearAllocator::new();
    let mut mem = page();
    let ret = map(&mut mm, &mut mem, [0, 0, 3, 0x22, -1, 0]);
    assert_eq!(ret, -EINVAL, "mmap with len=0 must return -EINVAL");
}

#[test]
fn mmap_rejects_file_backed() {
    let mut mm = LinearAllocator::new();
    let mut mem = page();
    let ret = map(&mut mm, &mut mem, [0, 4096, 3, 0x22, 0, 0]);
    assert_eq!(ret, -ENOSYS, "file-backed mmap must return -ENOSYS");
}

#[test]
fn mmap_grows_linear_memory() {
    let mut mm = LinearAllocator::new();
    let mut mem = page();
    let addr = map(&mut mm, &mut mem, [0, 4096, 3, 0x22, -1, 0]);
    assert!(addr > 0, "mmap should succeed, got {addr}");
    let required = LinearAllocator::FIRST_ARENA_BASE as usize + ARENA_SIZE as usize;
    assert!(mem.len() >= required, "after mmap, memory should be >= {required} bytes (got {})", mem.len());
}

#[test]
fn munmap_returns_einval_for_out_of_arena() {
    let mut mm = LinearAllocator::new();
    let ret = munmap(&mut mm, [4096, 4096, 0, 0, 0, 0]);
    assert_eq!(ret, -EINVAL, "munmap of unmapped range must return -EINVAL");
}

#[test]
fn mappings_lie_apart() {
    let mut mm = LinearAllocator::new();
    let mut mem = page();
    let a = map(&mut mm, &mut mem, [0, 100, 3, 0x22, -1, 0]);
    let b = map(&mut mm, &mut mem, [0, 100, 3, 0x22, -1, 0]);
    assert!(a > 0 && b > 0);
    assert!(a + 100 <= b || b + 100 <= a);
    assert_eq!(munmap(&mut mm, [a, 100, 0, 0, 0, 0]), 0);
    let c = map(&mut mm, &mut mem, [0, 100, 3, 0x22, -1, 0]);
    assert_eq!(c, a, "what was freed is given again");
}

#[test]
fn a_mapping_that_cannot_grow_is_refused() {
    let mut mm = LinearAllocator::new();
    let mut mem = page();
    let a = [0, 4096, 3, 0x22, -1, 0];
    assert!(matches!(mmap(&mut mm, &mut mem, a), MmapStep::Grow(_)));
    assert!(mmap_grown(&mut mm, &mut mem, a, false) < 0);
    assert!(matches!(mm.mmap(65536, 4096, 3, 0x22, -1, 0), MmapResult::NeedGrow(_)));
}

#[test]
fn protection_and_advice_are_accepted() {
    assert_eq!(mprotect(), 0);
    assert_eq!(madvise(), 0);
    let mm = LinearAllocator::new();
    assert_eq!(brk(&mm, [0; 6]), mm.brk() as i64);
}

#[test]
fn getrandom_fills_32_bytes() {
    let mut rng = SmallRng::seed_from_u64(7);
    let mut mem = page();
    assert_eq!(getrandom(&mut rng, &mut mem, [4096, 32, 0, 0, 0, 0]), 32);
    let mut sig: u64 = 0;
    for i in 0..4usize {
        sig ^= u64::from_le_bytes(mem[4096 + 8 * i..4104 + 8 * i].try_into().unwrap());
    }
    assert_ne!(sig, 0, "getrandom returned all-zero buffer (impossibly unlikely)");
    assert!(mem[4128..8192].iter().all(|b| *b == 0), "nothing is written past the buffer");
}

#[test]
fn getrandom_two_draws_differ() {
    let mut rng = SmallRng::seed_from_u64(7);
    let mut mem = page();
    assert_eq!(getrandom(&mut rng, &mut mem, [4096, 32, 0, 0, 0, 0]), 32);
    assert_eq!(getrandom(&mut rng, &mut mem, [6144, 32, 0, 0, 0, 0]), 32);
    assert_ne!(
        mem[4096..4128].to_vec(),
        mem[6144..6176].to_vec(),
        "two consecutive getrandom calls must differ in at least one qword"
    );
}

#[test]
fn getrandom_rejects_negative_length() {
    let mut rng = SmallRng::seed_from_u64(7);
    let mut mem = page();
    assert_eq!(getrandom(&mut rng, &mut mem, [4096, -1, 0, 0, 0, 0]), -EINVAL);
}

#[test]
fn getrandom_eault_on_bad_pointer() {
    let mut rng = SmallRng::seed_from_u64(7);
    let mut mem = page();
    assert_eq!(getrandom(&mut rng, &mut mem, [100000000, 16, 0, 0, 0, 0]), -EFAULT);
}

#[test]
fn the_same_seed_gives_the_same_bytes() {
    let mut a = SmallRng::seed_from_u64(11);
    let mut b = SmallRng::seed_from_u64(11);
    let mut m = page();
    let mut n = page();
    getrandom(&mut a, &mut m, [0, 64, 0, 0, 0, 0]);
    getrandom(&mut b, &mut n, [0, 64, 0, 0, 0, 0]);
    assert_eq!(m, n);
    assert_eq!(give_random(&mut m, 16, &vec![9, 8, 7]), 3);
    assert_eq!(&m[16..19], &[9, 8, 7]);
}
