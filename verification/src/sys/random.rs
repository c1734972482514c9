//! Random bytes.

use rand::rngs::SmallRng;
use rand::RngCore;
use vstd::prelude::*;
use crate::errno::EFAULT;
use crate::errno::EINVAL;
use crate::errno::ENOSYS;
use crate::mem::guest_write;
use crate::mem::in_bounds;
use crate::mem::splice;

verus! {

pub const NR_GETRANDOM: u32 = 318;

pub const GRND_NONBLOCK: u32 = 0x01;
pub const GRND_RANDOM: u32 = 0x02;

/// The most that one call gives.
pub const MAX_LEN: usize = 4096;

/// The generator that the bytes come from: `rand::rngs::SmallRng`.
#[verifier::external_type_specification]
#[verifier::external_body]
pub struct ExSmallRng(SmallRng);

/// `RngCore::fill_bytes` of `rand`, on a buffer of `len` bytes. It fills the whole
/// buffer. Which bytes come rests with the seed of the generator, and with the machine,
/// for which `SmallRng` picks its algorithm; it is not said.
#[verifier::external_body]
fn random_bytes(rng: &mut SmallRng, len: usize) -> (r: Vec<u8>)
    requires
        len <= MAX_LEN,
    ensures
        r@.len() == len,
{
    let mut buf: Vec<u8> = vec![0u8; len];
    rng.fill_bytes(&mut buf);
    buf
}

/// How many bytes a call asks for, or why it is refused.
pub open spec fn random_len(len: i64, flags: i64) -> Result<int, i64> {
    if (flags as u32) & !(GRND_NONBLOCK | GRND_RANDOM) != 0 {
        Err((-ENOSYS) as i64)
    } else if len < 0 || len > MAX_LEN {
        Err((-EINVAL) as i64)
    } else {
        Ok(len as int)
    }
}

/// What a call that got these bytes returns and leaves in the memory.
pub open spec fn random_given(m: Seq<u8>, ptr: int, bytes: Seq<u8>) -> (int, Seq<u8>) {
    if in_bounds(m.len(), ptr, bytes.len() as int) {
        (bytes.len() as int, splice(m, ptr, bytes))
    } else {
        (-EFAULT, m)
    }
}

/// Give the guest these bytes.
pub fn give_random(mem: &mut [u8], ptr: i64, bytes: &Vec<u8>) -> (r: i64)
    requires
        bytes@.len() <= MAX_LEN,
    ensures
        (r as int, final(mem)@) == random_given(old(mem)@, ptr as int, bytes@),
        final(mem)@.len() == old(mem)@.len(),
{
    match guest_write(mem, ptr, bytes.as_slice()) {
        Ok(_) => bytes.len() as i64,
        Err(e) => e,
    }
}

/// `getrandom(buf, len, flags)`. Which bytes are given is not said: any may be.
pub fn getrandom(rng: &mut SmallRng, mem: &mut [u8], a: [i64; 6]) -> (r: i64)
    ensures
        final(mem)@.len() == old(mem)@.len(),
        match random_len(a[1], a[2]) {
            Err(e) => r == e && final(mem)@ == old(mem)@,
            Ok(n) => if n == 0 {
                r == 0 && final(mem)@ == old(mem)@
            } else {
                exists|bytes: Seq<u8>| bytes.len() == n && (r as int, final(mem)@) == #[trigger]
                random_given(old(mem)@, a[0] as int, bytes)
            },
        },
{
    let flags: u32 = a[2] as u32;
    if flags & !(GRND_NONBLOCK | GRND_RANDOM) != 0 {
        return -ENOSYS;
    }
    if a[1] < 0 || a[1] > MAX_LEN as i64 {
        return -EINVAL;
    }
    if a[1] == 0 {
        return 0;
    }
    let bytes: Vec<u8> = random_bytes(rng, a[1] as usize);
    give_random(mem, a[0], &bytes)
}

} // verus!
