//! `ioctl`: the few requests that are known.

use vstd::prelude::*;
use crate::bytes::le;
use crate::bytes::le_len;
use crate::bytes::push_le;
use crate::errno::EBADF;
use crate::errno::EFAULT;
use crate::errno::EINVAL;
use crate::errno::ENOTTY;
use crate::fd::FdModel;
use crate::fd::FdTable;
use crate::fd::Resource;
use crate::mem::guest_write;
use crate::mem::in_bounds;
use crate::mem::written;
use crate::sys::file::set_nonblock;
use crate::sys::file::with_nonblock;

verus! {

broadcast use le_len;

pub const NR_IOCTL: u32 = 16;

pub const FIONBIO: u32 = 0x5421;
pub const FIONREAD: u32 = 0x541B;
pub const TIOCGWINSZ: u32 = 0x5413;

/// The size of a `struct winsize`.
pub const WINSIZE_SIZE: i64 = 8;

/// A terminal of 24 rows and 80 columns.
pub open spec fn winsize_image() -> Seq<u8> {
    le(24, 2) + le(80, 2) + le(0, 2) + le(0, 2)
}

/// What `ioctl` does. The state that `FIONBIO` asks for is `a[2]` itself.
pub open spec fn ioctl_after(f: FdModel, m: Seq<u8>, a: [i64; 6]) -> (int, FdModel, Seq<u8>) {
    let fd = a[0] as u32;
    let op = a[1] as u32;
    let ptr = a[2] as int;
    if op == FIONBIO {
        match f.at(fd as int) {
            Some(Resource::File(n)) => (0, with_nonblock(f, Resource::File(n), ptr != 0), m),
            Some(Resource::Socket(n)) => (0, with_nonblock(f, Resource::Socket(n), ptr != 0), m),
            _ => (-EBADF, f, m),
        }
    } else if op == FIONREAD {
        if ptr == 0 {
            (0, f, m)
        } else if in_bounds(m.len(), ptr, 4) {
            (0, f, written(m, ptr, le(0, 4)))
        } else {
            (-EFAULT, f, m)
        }
    } else if op == TIOCGWINSZ {
        if ptr == 0 {
            (-EINVAL, f, m)
        } else if in_bounds(m.len(), ptr, WINSIZE_SIZE as int) {
            (0, f, written(m, ptr, winsize_image()))
        } else {
            (-EFAULT, f, m)
        }
    } else {
        (-ENOTTY, f, m)
    }
}

/// `ioctl(fd, op, arg)`.
pub fn ioctl(fds: &mut FdTable, mem: &mut [u8], a: [i64; 6]) -> (r: i64)
    requires
        old(fds)@.wf(),
    ensures
        (r as int, final(fds)@, final(mem)@) == ioctl_after(old(fds)@, old(mem)@, a),
        final(fds)@.wf(),
        final(mem)@.len() == old(mem)@.len(),
{
    let fd: u32 = a[0] as u32;
    let op: u32 = a[1] as u32;
    if op == FIONBIO {
        let res: Resource = match fds.get(fd) {
            Ok(r) => r,
            Err(e) => {
                return e;
            },
        };
        match res {
            Resource::File(_) | Resource::Socket(_) => {
                set_nonblock(fds, res, a[2] != 0);
                0
            },
            _ => -EBADF,
        }
    } else if op == FIONREAD {
        if a[2] == 0 {
            return 0;
        }
        let mut b: Vec<u8> = Vec::new();
        push_le(&mut b, 0, 4);
        assert(b@ =~= le(0, 4));
        match guest_write(mem, a[2], b.as_slice()) {
            Ok(_) => 0,
            Err(e) => e,
        }
    } else if op == TIOCGWINSZ {
        if a[2] == 0 {
            return -EINVAL;
        }
        let mut b: Vec<u8> = Vec::new();
        push_le(&mut b, 24, 2);
        push_le(&mut b, 80, 2);
        push_le(&mut b, 0, 2);
        push_le(&mut b, 0, 2);
        assert(b@ =~= winsize_image());
        match guest_write(mem, a[2], b.as_slice()) {
            Ok(_) => 0,
            Err(e) => e,
        }
    } else {
        -ENOTTY
    }
}

} // verus!
