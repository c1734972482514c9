//! Who the guest is: fixed users, groups, limits and system names.

use vstd::prelude::*;
use crate::bytes::le;
use crate::bytes::le_len;
use crate::bytes::push_bytes;
use crate::bytes::push_le;
use crate::bytes::push_zeros;
use crate::bytes::zeros;
use crate::errno::EFAULT;
use crate::errno::EINVAL;
use crate::errno::EOPNOTSUPP;
use crate::errno::EPERM;
use crate::mem::guest_write;
use crate::mem::in_bounds;
use crate::mem::splice;

verus! {

broadcast use le_len;

pub const UID: i64 = 1000;
pub const GID: i64 = 1000;

pub const NR_GETUID: u32 = 102;
pub const NR_GETEUID: u32 = 107;
pub const NR_GETGID: u32 = 104;
pub const NR_GETEGID: u32 = 108;
pub const NR_GETPPID: u32 = 110;
pub const NR_UNAME: u32 = 63;
pub const NR_PRLIMIT64: u32 = 302;
pub const NR_GETRLIMIT: u32 = 97;
pub const NR_SETSID: u32 = 112;
pub const NR_GETSID: u32 = 124;
pub const NR_GETGROUPS: u32 = 115;

/// The size of a `struct utsname`, of one of its fields, and their number.
pub const UTSNAME_SIZE: i64 = 390;
pub const UTSNAME_FIELD: usize = 65;
pub const UTSNAME_FIELDS: usize = 6;

/// The size of a `struct rlimit64`.
pub const RLIMIT64_SIZE: i64 = 16;

pub fn getuid() -> (r: i64)
    ensures
        r == 1000,
{
    UID
}

pub fn geteuid() -> (r: i64)
    ensures
        r == 1000,
{
    UID
}

pub fn getgid() -> (r: i64)
    ensures
        r == 1000,
{
    GID
}

pub fn getegid() -> (r: i64)
    ensures
        r == 1000,
{
    GID
}

/// `getppid()`: the process is its own parent.
pub fn getppid() -> (r: i64)
    ensures
        r == 1,
{
    1
}

/// The letters of a text of ASCII.
pub open spec fn ascii(s: Seq<char>) -> Seq<u8> {
    s.map_values(|c: char| c as u8)
}

/// A field of a `struct utsname`: the text, and zeros after it.
pub open spec fn uts_field(s: Seq<u8>) -> Seq<u8> {
    s + zeros((UTSNAME_FIELD - s.len()) as nat)
}

/// The names of the system: sysname, nodename, release, version, machine and
/// domainname.
pub open spec fn utsname_image() -> Seq<u8> {
    uts_field(ascii("Linux"@)) + uts_field(ascii("edge-libos"@)) + uts_field(ascii("6.0.0"@))
        + uts_field(ascii("#1 wasm32"@)) + uts_field(ascii("wasm32"@)) + uts_field(
        ascii("(none)"@),
    )
}

fn push_field(out: &mut Vec<u8>, s: &[u8])
    requires
        s@.len() <= UTSNAME_FIELD,
    ensures
        final(out)@ == old(out)@ + uts_field(s@),
{
    push_bytes(out, s);
    push_zeros(out, UTSNAME_FIELD - s.len());
    assert(out@ =~= old(out)@ + uts_field(s@));
}

/// What `uname` does.
pub open spec fn uname_after(m: Seq<u8>, a: [i64; 6]) -> (int, Seq<u8>) {
    if in_bounds(m.len(), a[0] as int, UTSNAME_SIZE as int) {
        (0, splice(m, a[0] as int, utsname_image()))
    } else {
        (-EFAULT, m)
    }
}

/// `uname(buf)`.
pub fn uname(mem: &mut [u8], a: [i64; 6]) -> (r: i64)
    ensures
        (r as int, final(mem)@) == uname_after(old(mem)@, a),
        final(mem)@.len() == old(mem)@.len(),
{
    let sysname: [u8; 5] = [76, 105, 110, 117, 120];
    let nodename: [u8; 10] = [101, 100, 103, 101, 45, 108, 105, 98, 111, 115];
    let release: [u8; 5] = [54, 46, 48, 46, 48];
    let version: [u8; 9] = [35, 49, 32, 119, 97, 115, 109, 51, 50];
    let machine: [u8; 6] = [119, 97, 115, 109, 51, 50];
    let domainname: [u8; 6] = [40, 110, 111, 110, 101, 41];
    proof {
        reveal_strlit("Linux");
        reveal_strlit("edge-libos");
        reveal_strlit("6.0.0");
        reveal_strlit("#1 wasm32");
        reveal_strlit("wasm32");
        reveal_strlit("(none)");
        assert(sysname@ =~= ascii("Linux"@));
        assert(nodename@ =~= ascii("edge-libos"@));
        assert(release@ =~= ascii("6.0.0"@));
        assert(version@ =~= ascii("#1 wasm32"@));
        assert(machine@ =~= ascii("wasm32"@));
        assert(domainname@ =~= ascii("(none)"@));
    }
    let mut b: Vec<u8> = Vec::new();
    push_field(&mut b, sysname.as_slice());
    push_field(&mut b, nodename.as_slice());
    push_field(&mut b, release.as_slice());
    push_field(&mut b, version.as_slice());
    push_field(&mut b, machine.as_slice());
    push_field(&mut b, domainname.as_slice());
    assert(b@ =~= utsname_image());
    match guest_write(mem, a[0], b.as_slice()) {
        Ok(_) => 0,
        Err(e) => e,
    }
}

/// No limit, neither soft nor hard.
pub open spec fn no_limit_image() -> Seq<u8> {
    le(u64::MAX as nat, 8) + le(u64::MAX as nat, 8)
}

/// What `prlimit64` of the process `pid` does: there are no limits, and none can be
/// set.
pub open spec fn prlimit_after(m: Seq<u8>, pid: i64, old_limit: int) -> (int, Seq<u8>) {
    if pid != 0 && pid != 1 {
        (-EPERM, m)
    } else if old_limit == 0 {
        (0, m)
    } else if in_bounds(m.len(), old_limit, RLIMIT64_SIZE as int) {
        (0, splice(m, old_limit, no_limit_image()))
    } else {
        (-EFAULT, m)
    }
}

fn tell_limit(mem: &mut [u8], pid: i64, old_limit: i64) -> (r: i64)
    ensures
        (r as int, final(mem)@) == prlimit_after(old(mem)@, pid, old_limit as int),
        final(mem)@.len() == old(mem)@.len(),
{
    if pid != 0 && pid != 1 {
        return -EPERM;
    }
    if old_limit == 0 {
        return 0;
    }
    let mut b: Vec<u8> = Vec::new();
    push_le(&mut b, u64::MAX, 8);
    push_le(&mut b, u64::MAX, 8);
    assert(b@ =~= no_limit_image());
    match guest_write(mem, old_limit, b.as_slice()) {
        Ok(_) => 0,
        Err(e) => e,
    }
}

/// `prlimit64(pid, resource, new_limit, old_limit)`.
pub fn prlimit64(mem: &mut [u8], a: [i64; 6]) -> (r: i64)
    ensures
        (r as int, final(mem)@) == prlimit_after(old(mem)@, a[0], a[3] as int),
        final(mem)@.len() == old(mem)@.len(),
{
    tell_limit(mem, a[0], a[3])
}

/// `getrlimit(resource, rlim)`.
pub fn getrlimit(mem: &mut [u8], a: [i64; 6]) -> (r: i64)
    ensures
        (r as int, final(mem)@) == prlimit_after(old(mem)@, 0, a[1] as int),
        final(mem)@.len() == old(mem)@.len(),
{
    tell_limit(mem, 0, a[1])
}

/// `setsid()`: there are no sessions.
pub fn setsid() -> (r: i64)
    ensures
        r == -EPERM,
{
    -EPERM
}

pub fn getsid(_a: [i64; 6]) -> (r: i64)
    ensures
        r == 1,
{
    1
}

/// What `getgroups` answers.
pub open spec fn getgroups_answer(a: [i64; 6]) -> int {
    if a[0] < 0 {
        -EINVAL
    } else if a[0] > 0 && a[1] == 0 {
        -EOPNOTSUPP
    } else {
        0
    }
}

/// `getgroups(size, list)`: there are no further groups.
pub fn getgroups(a: [i64; 6]) -> (r: i64)
    ensures
        r == getgroups_answer(a),
{
    if a[0] < 0 {
        return -EINVAL;
    }
    if a[0] == 0 {
        return 0;
    }
    if a[1] == 0 {
        return -EOPNOTSUPP;
    }
    0
}

} // verus!
