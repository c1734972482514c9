//! File and descriptor system calls.
//!
//! A call that needs the host stops half-way: it returns what the host is to do,
//! and a second function takes the host's reply and finishes the call.

use std::collections::VecDeque;
use vstd::prelude::*;
use vstd::slice::slice_subrange;
use crate::bytes::le;
use crate::bytes::le_len;
use crate::bytes::push_le;
use crate::bytes::push_zeros;
use crate::bytes::read_le;
use crate::bytes::to_word64;
use crate::bytes::word64;
use crate::bytes::zeros;
use crate::errno::EACCES;
use crate::errno::EAGAIN;
use crate::errno::EBADF;
use crate::errno::EEXIST;
use crate::errno::EFAULT;
use crate::errno::EINVAL;
use crate::errno::EIO;
use crate::errno::EISDIR;
use crate::errno::ELOOP;
use crate::errno::EMFILE;
use crate::errno::ENOENT;
use crate::errno::ENOTDIR;
use crate::errno::ENOTEMPTY;
use crate::errno::ERANGE;
use crate::errno::ESPIPE;
use crate::fd::bytes_view;
use crate::fd::a_number_is_free;
use crate::fd::alive;
use crate::fd::fd_arg;
use crate::fd::fresh_pipe;
use crate::fd::group_fd_objects;
use crate::fd::lowest_free;
use crate::fd::EventFdInner;
use crate::fd::FdModel;
use crate::fd::FdTable;
use crate::fd::FileModel;
use crate::fd::FilePos;
use crate::fd::Pipe;
use crate::fd::PipeModel;
use crate::fd::Resource;
use crate::fd::SocketInner;
use crate::fd::SocketModel;
use crate::fd::WakeSource;
use crate::fd::FD_LIMIT;
use crate::host::FileMeta;
use crate::host::IoErrorKind;
use crate::mem::bounds_answer;
use crate::mem::check_range;
use crate::mem::copy_into;
use crate::mem::guest_slice;
use crate::mem::guest_write;
use crate::mem::in_bounds;
use crate::mem::splice;
use crate::mem::splice_reads_back;
use crate::mem::to_index;
use crate::mem::window;
use crate::mem::word_at;
use crate::mem::written;
use crate::path::path_text;
use crate::path::GuestPath;
use crate::sys::eventfd::drain_result;
use crate::sys::eventfd::drained;
use crate::sys::eventfd::eventfd_read;
use crate::sys::eventfd::eventfd_write;
use crate::sys::eventfd::raised;
use crate::sys::eventfd::require_u64_buf;
use crate::vfs::page;
use crate::vfs::page_of;
use crate::vfs::stat_of;
use crate::vfs::Stat;

verus! {

broadcast use {le_len, group_fd_objects};

// System call numbers (x86-64).
pub const NR_READ: u32 = 0;
pub const NR_WRITE: u32 = 1;
pub const NR_OPEN: u32 = 2;
pub const NR_OPENAT: u32 = 257;
pub const NR_CLOSE: u32 = 3;
pub const NR_STAT: u32 = 4;
pub const NR_LSTAT: u32 = 6;
pub const NR_LSEEK: u32 = 8;
pub const NR_FSTAT: u32 = 5;
pub const NR_NEWFSTATAT: u32 = 262;
pub const NR_STATX: u32 = 332;
pub const NR_GETDENTS64: u32 = 217;
pub const NR_PIPE: u32 = 22;
pub const NR_PIPE2: u32 = 293;
pub const NR_FCNTL: u32 = 72;
pub const NR_GETCWD: u32 = 79;
pub const NR_READV: u32 = 19;
pub const NR_WRITEV: u32 = 20;
pub const NR_DUP: u32 = 32;
pub const NR_DUP2: u32 = 33;
pub const NR_DUP3: u32 = 292;
pub const NR_MKDIR: u32 = 83;
pub const NR_RMDIR: u32 = 84;
pub const NR_UNLINK: u32 = 87;
pub const NR_MKDIRAT: u32 = 258;
pub const NR_UNLINKAT: u32 = 263;
pub const NR_RENAME: u32 = 82;
pub const NR_RENAMEAT: u32 = 264;
pub const NR_RENAMEAT2: u32 = 316;
pub const NR_TRUNCATE: u32 = 76;
pub const NR_FTRUNCATE: u32 = 77;
pub const NR_READLINK: u32 = 89;
pub const NR_READLINKAT: u32 = 267;
pub const NR_SYMLINK: u32 = 88;
pub const NR_SYMLINKAT: u32 = 266;
pub const NR_LINK: u32 = 86;
pub const NR_LINKAT: u32 = 265;
pub const NR_UTIMENSAT: u32 = 280;
pub const NR_CHMOD: u32 = 90;
pub const NR_FCHMOD: u32 = 91;
pub const NR_FCHMODAT: u32 = 268;
pub const NR_FACCESSAT: u32 = 269;
pub const NR_FACCESSAT2: u32 = 439;
pub const NR_CHDIR: u32 = 80;
pub const NR_CHROOT: u32 = 161;


/// `unlinkat` flag: remove a directory.
pub const AT_REMOVEDIR: i32 = 0x200;

// `renameat2` flags.
pub const RENAME_NOREPLACE: i32 = 0x1;
pub const RENAME_EXCHANGE: i32 = 0x2;
pub const RENAME_WHITEOUT: i32 = 0x4;

// `faccessat` modes.
pub const R_OK: i32 = 4;
pub const W_OK: i32 = 2;
pub const X_OK: i32 = 1;
pub const F_OK: i32 = 0;

pub const AT_SYMLINK_NOFOLLOW_FCHMODAT: i32 = 0x100;
pub const AT_SYMLINK_NOFOLLOW_UTIMENSAT: i32 = 0x100;
pub const AT_EACCESS: i32 = 0x200;

/// The bytes within which a path must end.
pub const PATH_MAX: i64 = 4096;

// `open` flags.
pub const O_ACCMODE: i32 = 0o3;
pub const O_RDONLY: i32 = 0o0;
pub const O_WRONLY: i32 = 0o1;
pub const O_RDWR: i32 = 0o2;
pub const O_CREAT: i32 = 0o100;
pub const O_EXCL: i32 = 0o200;
pub const O_NOCTTY: i32 = 0o400;
pub const O_TRUNC: i32 = 0o1000;
pub const O_APPEND: i32 = 0o2000;
pub const O_NONBLOCK: i32 = 0o4000;
pub const O_DIRECTORY: i32 = 0o200000;
pub const O_NOFOLLOW: i32 = 0o400000;
pub const O_CLOEXEC: i32 = 0o2000000;

// `lseek` origins.
pub const SEEK_SET: i64 = 0;
pub const SEEK_CUR: i64 = 1;
pub const SEEK_END: i64 = 2;

// `fcntl` commands.
pub const F_GETFL: i32 = 3;
pub const F_SETFL: i32 = 4;
pub const F_GETFD: i32 = 1;
pub const F_SETFD: i32 = 2;
pub const F_DUPFD: i32 = 0;
pub const F_DUPFD_CLOEXEC: i32 = 1030;

// `statx` flags and mask bits.
pub const AT_EMPTY_PATH: i32 = 0x1000;
pub const AT_NO_AUTOMOUNT: i32 = 0x800;
pub const AT_SYMLINK_NOFOLLOW: i32 = 0x100;
pub const STATX_TYPE: u32 = 0x1;
pub const STATX_MODE: u32 = 0x2;
pub const STATX_NLINK: u32 = 0x4;
pub const STATX_UID: u32 = 0x8;
pub const STATX_GID: u32 = 0x10;
pub const STATX_ATIME: u32 = 0x20;
pub const STATX_MTIME: u32 = 0x40;
pub const STATX_CTIME: u32 = 0x80;
pub const STATX_INO: u32 = 0x100;
pub const STATX_BLOCKS: u32 = 0x400;
pub const STATX_BTIME: u32 = 0x800;

/// The size of `struct statx`.
pub const STATX_SIZE: usize = 256;

/// The error number, positive, of a failed host file operation.
pub open spec fn file_errno(e: IoErrorKind) -> i64 {
    match e {
        IoErrorKind::NotFound => ENOENT,
        IoErrorKind::PermissionDenied => EACCES,
        IoErrorKind::AlreadyExists => EEXIST,
        IoErrorKind::InvalidInput => EINVAL,
        IoErrorKind::NotADirectory => ENOTDIR,
        IoErrorKind::IsADirectory => EISDIR,
        IoErrorKind::DirectoryNotEmpty => ENOTEMPTY,
        IoErrorKind::TooManyLinks => ELOOP,
        IoErrorKind::Other => EIO,
    }
}

/// The error number, positive, of a failed host file operation.
pub fn io_to_errno(e: IoErrorKind) -> (r: i64)
    ensures
        r == file_errno(e),
        1 <= r <= 40,
{
    match e {
        IoErrorKind::NotFound => ENOENT,
        IoErrorKind::PermissionDenied => EACCES,
        IoErrorKind::AlreadyExists => EEXIST,
        IoErrorKind::InvalidInput => EINVAL,
        IoErrorKind::NotADirectory => ENOTDIR,
        IoErrorKind::IsADirectory => EISDIR,
        IoErrorKind::DirectoryNotEmpty => ENOTEMPTY,
        IoErrorKind::TooManyLinks => ELOOP,
        IoErrorKind::Other => EIO,
    }
}

/// `struct statx`.
#[derive(Clone, Copy, PartialEq, Eq, Structural, Debug)]
pub struct Statx {
    pub stx_mask: u32,
    pub stx_blksize: u32,
    pub stx_attributes: u64,
    pub stx_nlink: u64,
    pub stx_uid: u32,
    pub stx_gid: u32,
    pub stx_mode: u16,
    pub stx_ino: u64,
    pub stx_size: u64,
    pub stx_blocks: u64,
    pub stx_attributes_mask: u64,
    pub stx_atime_sec: i64,
    pub stx_atime_nsec: i64,
    pub stx_btime_sec: i64,
    pub stx_btime_nsec: i64,
    pub stx_ctime_sec: i64,
    pub stx_ctime_nsec: i64,
    pub stx_mtime_sec: i64,
    pub stx_mtime_nsec: i64,
    pub stx_rdev_major: u32,
    pub stx_rdev_minor: u32,
    pub stx_dev_major: u64,
    pub stx_dev_minor: u64,
    pub stx_mnt_id: u64,
    pub stx_dio_mem_align: u32,
    pub stx_dio_offset_align: u32,
}

/// The fields that a `Statx` made from a `Stat` fills: all but the birth time.
pub open spec fn filled() -> u32 {
    STATX_TYPE | STATX_MODE | STATX_NLINK | STATX_UID | STATX_GID | STATX_ATIME | STATX_MTIME
        | STATX_CTIME | STATX_INO | STATX_BLOCKS
}

/// `n` moved into the range of a nanosecond field.
pub open spec fn clamped(n: i64) -> i64 {
    if n < 0 {
        0
    } else if n > 999_999_999 {
        999_999_999
    } else {
        n
    }
}

/// A `Stat` as a `Statx`.
pub open spec fn statx_of(s: Stat) -> Statx {
    Statx {
        stx_mask: filled(),
        stx_blksize: s.st_blksize as u32,
        stx_attributes: 0,
        stx_nlink: s.st_nlink,
        stx_uid: s.st_uid,
        stx_gid: s.st_gid,
        stx_mode: (s.st_mode & 0xffff) as u16,
        stx_ino: s.st_ino,
        stx_size: word64(s.st_size) as u64,
        stx_blocks: word64(s.st_blocks) as u64,
        stx_attributes_mask: 0,
        stx_atime_sec: s.st_atime,
        stx_atime_nsec: clamped(s.st_atime_nsec),
        stx_btime_sec: 0,
        stx_btime_nsec: 0,
        stx_ctime_sec: s.st_ctime,
        stx_ctime_nsec: clamped(s.st_ctime_nsec),
        stx_mtime_sec: s.st_mtime,
        stx_mtime_nsec: clamped(s.st_mtime_nsec),
        stx_rdev_major: 0,
        stx_rdev_minor: 0,
        stx_dev_major: 0,
        stx_dev_minor: 0,
        stx_mnt_id: 0,
        stx_dio_mem_align: 0,
        stx_dio_offset_align: 0,
    }
}

impl Statx {
    /// The bytes of the structure, field by field. After `stx_mode` there are six
    /// bytes of padding, and 80 reserved bytes end it.
    pub open spec fn image(self) -> Seq<u8> {
        Seq::empty() + le(self.stx_mask as nat, 4) + le(self.stx_blksize as nat, 4) + le(
            self.stx_attributes as nat,
            8,
        ) + le(self.stx_nlink as nat, 8) + le(self.stx_uid as nat, 4) + le(self.stx_gid as nat, 4)
            + le(self.stx_mode as nat, 2) + zeros(6) + le(self.stx_ino as nat, 8) + le(
            self.stx_size as nat,
            8,
        ) + le(self.stx_blocks as nat, 8) + le(self.stx_attributes_mask as nat, 8) + le(
            word64(self.stx_atime_sec),
            8,
        ) + le(word64(self.stx_atime_nsec), 8) + le(word64(self.stx_btime_sec), 8) + le(
            word64(self.stx_btime_nsec),
            8,
        ) + le(word64(self.stx_ctime_sec), 8) + le(word64(self.stx_ctime_nsec), 8) + le(
            word64(self.stx_mtime_sec),
            8,
        ) + le(word64(self.stx_mtime_nsec), 8) + le(self.stx_rdev_major as nat, 4) + le(
            self.stx_rdev_minor as nat,
            4,
        ) + le(self.stx_dev_major as nat, 8) + le(self.stx_dev_minor as nat, 8) + le(
            self.stx_mnt_id as nat,
            8,
        ) + le(self.stx_dio_mem_align as nat, 4) + le(self.stx_dio_offset_align as nat, 4) + zeros(
            80,
        )
    }

    /// A `Stat` as a `Statx`.
    pub fn from_stat(s: &Stat) -> (r: Statx)
        ensures
            r == statx_of(*s),
    {
        Statx {
            stx_mask: Statx::filled_mask(),
            stx_blksize: s.st_blksize as u32,
            stx_attributes: 0,
            stx_nlink: s.st_nlink,
            stx_uid: s.st_uid,
            stx_gid: s.st_gid,
            stx_mode: (s.st_mode & 0xffff) as u16,
            stx_ino: s.st_ino,
            stx_size: to_word64(s.st_size),
            stx_blocks: to_word64(s.st_blocks),
            stx_attributes_mask: 0,
            stx_atime_sec: s.st_atime,
            stx_atime_nsec: clamp_nsec(s.st_atime_nsec),
            stx_btime_sec: 0,
            stx_btime_nsec: 0,
            stx_ctime_sec: s.st_ctime,
            stx_ctime_nsec: clamp_nsec(s.st_ctime_nsec),
            stx_mtime_sec: s.st_mtime,
            stx_mtime_nsec: clamp_nsec(s.st_mtime_nsec),
            stx_rdev_major: 0,
            stx_rdev_minor: 0,
            stx_dev_major: 0,
            stx_dev_minor: 0,
            stx_mnt_id: 0,
            stx_dio_mem_align: 0,
            stx_dio_offset_align: 0,
        }
    }

    /// The fields that `from_stat` fills.
    pub fn filled_mask() -> (r: u32)
        ensures
            r == filled(),
            r == 0x5ff,
            r & STATX_BTIME == 0,
    {
        let r: u32 = STATX_TYPE | STATX_MODE | STATX_NLINK | STATX_UID | STATX_GID | STATX_ATIME
            | STATX_MTIME | STATX_CTIME | STATX_INO | STATX_BLOCKS;
        assert(0x1u32 | 0x2 | 0x4 | 0x8 | 0x10 | 0x20 | 0x40 | 0x80 | 0x100 | 0x400 == 0x5ffu32
            && 0x5ffu32 & 0x800 == 0) by (bit_vector);
        r
    }

    /// The bytes of the structure.
    pub fn encode(self) -> (r: [u8; 256])
        ensures
            r@ == self.image(),
            r@.len() == STATX_SIZE,
    {
        let mut out: Vec<u8> = Vec::new();
        push_le(&mut out, self.stx_mask as u64, 4);
        push_le(&mut out, self.stx_blksize as u64, 4);
        push_le(&mut out, self.stx_attributes, 8);
        push_le(&mut out, self.stx_nlink, 8);
        push_le(&mut out, self.stx_uid as u64, 4);
        push_le(&mut out, self.stx_gid as u64, 4);
        push_le(&mut out, self.stx_mode as u64, 2);
        push_zeros(&mut out, 6);
        push_le(&mut out, self.stx_ino, 8);
        push_le(&mut out, self.stx_size, 8);
        push_le(&mut out, self.stx_blocks, 8);
        push_le(&mut out, self.stx_attributes_mask, 8);
        push_le(&mut out, to_word64(self.stx_atime_sec), 8);
        push_le(&mut out, to_word64(self.stx_atime_nsec), 8);
        push_le(&mut out, to_word64(self.stx_btime_sec), 8);
        push_le(&mut out, to_word64(self.stx_btime_nsec), 8);
        push_le(&mut out, to_word64(self.stx_ctime_sec), 8);
        push_le(&mut out, to_word64(self.stx_ctime_nsec), 8);
        push_le(&mut out, to_word64(self.stx_mtime_sec), 8);
        push_le(&mut out, to_word64(self.stx_mtime_nsec), 8);
        push_le(&mut out, self.stx_rdev_major as u64, 4);
        push_le(&mut out, self.stx_rdev_minor as u64, 4);
        push_le(&mut out, self.stx_dev_major, 8);
        push_le(&mut out, self.stx_dev_minor, 8);
        push_le(&mut out, self.stx_mnt_id, 8);
        push_le(&mut out, self.stx_dio_mem_align as u64, 4);
        push_le(&mut out, self.stx_dio_offset_align as u64, 4);
        push_zeros(&mut out, 80);
        let mut buf: [u8; 256] = [0u8; 256];
        copy_into(&mut buf, 0, out.as_slice());
        assert(buf@ =~= self.image());
        buf
    }
}

/// Each field of `struct statx` stands at its offset, and the padding is zero.
pub proof fn statx_field_offsets(s: Statx)
    ensures
        s.image().len() == 256,
        window(s.image(), 0, 4) == le(s.stx_mask as nat, 4),
        window(s.image(), 4, 4) == le(s.stx_blksize as nat, 4),
        window(s.image(), 8, 8) == le(s.stx_attributes as nat, 8),
        window(s.image(), 16, 8) == le(s.stx_nlink as nat, 8),
        window(s.image(), 24, 4) == le(s.stx_uid as nat, 4),
        window(s.image(), 28, 4) == le(s.stx_gid as nat, 4),
        window(s.image(), 32, 2) == le(s.stx_mode as nat, 2),
        window(s.image(), 34, 6) == zeros(6),
        window(s.image(), 40, 8) == le(s.stx_ino as nat, 8),
        window(s.image(), 48, 8) == le(s.stx_size as nat, 8),
        window(s.image(), 56, 8) == le(s.stx_blocks as nat, 8),
        window(s.image(), 64, 8) == le(s.stx_attributes_mask as nat, 8),
        window(s.image(), 72, 8) == le(word64(s.stx_atime_sec), 8),
        window(s.image(), 80, 8) == le(word64(s.stx_atime_nsec), 8),
        window(s.image(), 88, 8) == le(word64(s.stx_btime_sec), 8),
        window(s.image(), 96, 8) == le(word64(s.stx_btime_nsec), 8),
        window(s.image(), 104, 8) == le(word64(s.stx_ctime_sec), 8),
        window(s.image(), 112, 8) == le(word64(s.stx_ctime_nsec), 8),
        window(s.image(), 120, 8) == le(word64(s.stx_mtime_sec), 8),
        window(s.image(), 128, 8) == le(word64(s.stx_mtime_nsec), 8),
        window(s.image(), 136, 4) == le(s.stx_rdev_major as nat, 4),
        window(s.image(), 140, 4) == le(s.stx_rdev_minor as nat, 4),
        window(s.image(), 144, 8) == le(s.stx_dev_major as nat, 8),
        window(s.image(), 152, 8) == le(s.stx_dev_minor as nat, 8),
        window(s.image(), 160, 8) == le(s.stx_mnt_id as nat, 8),
        window(s.image(), 168, 4) == le(s.stx_dio_mem_align as nat, 4),
        window(s.image(), 172, 4) == le(s.stx_dio_offset_align as nat, 4),
        window(s.image(), 176, 80) == zeros(80),
{
}

/// `n` moved into the range of a nanosecond field.
pub fn clamp_nsec(n: i64) -> (r: i64)
    ensures
        r == clamped(n),
        0 <= r <= 999_999_999,
{
    if n < 0 {
        0
    } else if n > 999_999_999 {
        999_999_999
    } else {
        n
    }
}

/// The attributes of whatever is not a file: a character device.
pub open spec fn char_device() -> Stat {
    Stat {
        st_dev: 0,
        st_ino: 0,
        st_nlink: 1,
        st_mode: 0o020666,
        st_uid: 1000,
        st_gid: 1000,
        st_rdev: 0,
        st_size: 0,
        st_blksize: 4096,
        st_blocks: 0,
        st_atime: 0,
        st_atime_nsec: 0,
        st_mtime: 0,
        st_mtime_nsec: 0,
        st_ctime: 0,
        st_ctime_nsec: 0,
    }
}

pub fn synth_char() -> (r: Stat)
    ensures
        r == char_device(),
{
    Stat {
        st_dev: 0,
        st_ino: 0,
        st_nlink: 1,
        st_mode: 0o020666,
        st_uid: 1000,
        st_gid: 1000,
        st_rdev: 0,
        st_size: 0,
        st_blksize: 4096,
        st_blocks: 0,
        st_atime: 0,
        st_atime_nsec: 0,
        st_mtime: 0,
        st_mtime_nsec: 0,
        st_ctime: 0,
        st_ctime_nsec: 0,
    }
}

/// The table with the non-blocking flag of what `r` names set to `on`. Files, epoll
/// sets and event counters have no such flag to set.
pub open spec fn with_nonblock(f: FdModel, r: Resource, on: bool) -> FdModel {
    match r {
        Resource::Stdin(n) => f.with_pipe(n, PipeModel { rd_nonblock: on, ..f.pipes[n] }),
        Resource::PipeRead(n) => f.with_pipe(n, PipeModel { rd_nonblock: on, ..f.pipes[n] }),
        Resource::Stdout(n) => f.with_pipe(n, PipeModel { wr_nonblock: on, ..f.pipes[n] }),
        Resource::Stderr(n) => f.with_pipe(n, PipeModel { wr_nonblock: on, ..f.pipes[n] }),
        Resource::PipeWrite(n) => f.with_pipe(n, PipeModel { wr_nonblock: on, ..f.pipes[n] }),
        Resource::Socket(n) => f.with_socket(n, SocketModel { nonblock: on, ..f.sockets[n] }),
        _ => f,
    }
}

fn set_rd_nonblock(fds: &mut FdTable, n: u64, on: bool)
    requires
        old(fds)@.wf(),
        old(fds)@.pipes.contains_key(n),
    ensures
        final(fds)@ == old(fds)@.with_pipe(
            n,
            PipeModel { rd_nonblock: on, ..old(fds)@.pipes[n] },
        ),
        final(fds)@.wf(),
{
    let mut p: Pipe = fds.take_pipe(n);
    p.rd_nonblock = on;
    fds.put_pipe(n, p);
}

fn set_wr_nonblock(fds: &mut FdTable, n: u64, on: bool)
    requires
        old(fds)@.wf(),
        old(fds)@.pipes.contains_key(n),
    ensures
        final(fds)@ == old(fds)@.with_pipe(
            n,
            PipeModel { wr_nonblock: on, ..old(fds)@.pipes[n] },
        ),
        final(fds)@.wf(),
{
    let mut p: Pipe = fds.take_pipe(n);
    p.wr_nonblock = on;
    fds.put_pipe(n, p);
}

/// Set the non-blocking flag of the socket `n`.
pub fn set_socket_nonblock(fds: &mut FdTable, n: u64, on: bool)
    requires
        old(fds)@.wf(),
        old(fds)@.sockets.contains_key(n),
    ensures
        final(fds)@ == old(fds)@.with_socket(
            n,
            SocketModel { nonblock: on, ..old(fds)@.sockets[n] },
        ),
        final(fds)@.wf(),
{
    let mut s: SocketInner = fds.take_socket(n);
    s.nonblock = on;
    fds.put_socket(n, s);
}

/// Set the non-blocking flag of what `r` names.
pub fn set_nonblock(fds: &mut FdTable, r: Resource, on: bool)
    requires
        old(fds)@.wf(),
        alive(old(fds)@, r),
    ensures
        final(fds)@ == with_nonblock(old(fds)@, r, on),
        final(fds)@.wf(),
{
    match r {
        Resource::Stdin(n) => set_rd_nonblock(fds, n, on),
        Resource::PipeRead(n) => set_rd_nonblock(fds, n, on),
        Resource::Stdout(n) => set_wr_nonblock(fds, n, on),
        Resource::Stderr(n) => set_wr_nonblock(fds, n, on),
        Resource::PipeWrite(n) => set_wr_nonblock(fds, n, on),
        Resource::Socket(n) => set_socket_nonblock(fds, n, on),
        Resource::File(_) | Resource::Epoll(_) | Resource::EventFd(_) => {},
    }
}

/// `flags` with `O_NONBLOCK` where `on`.
pub open spec fn flags_with(flags: i32, on: bool) -> i32 {
    if on {
        flags | O_NONBLOCK
    } else {
        flags
    }
}

/// The status flags that `F_GETFL` reports.
pub open spec fn status_flags(f: FdModel, r: Resource) -> i32 {
    match r {
        Resource::Stdin(n) => flags_with(O_RDONLY, f.pipes[n].rd_nonblock),
        Resource::PipeRead(n) => flags_with(O_RDONLY, f.pipes[n].rd_nonblock),
        Resource::Stdout(n) => flags_with(O_WRONLY, f.pipes[n].wr_nonblock),
        Resource::Stderr(n) => flags_with(O_WRONLY, f.pipes[n].wr_nonblock),
        Resource::PipeWrite(n) => flags_with(O_WRONLY, f.pipes[n].wr_nonblock),
        Resource::Socket(n) => flags_with(O_RDWR, f.sockets[n].nonblock),
        _ => O_RDWR,
    }
}

fn get_flags(fds: &FdTable, r: Resource) -> (fl: i32)
    requires
        alive(fds@, r),
    ensures
        fl == status_flags(fds@, r),
{
    let (flags, on): (i32, bool) = match r {
        Resource::Stdin(n) | Resource::PipeRead(n) => (O_RDONLY, fds.pipe(n).rd_nonblock),
        Resource::Stdout(n) | Resource::Stderr(n) | Resource::PipeWrite(n) => (
            O_WRONLY,
            fds.pipe(n).wr_nonblock,
        ),
        Resource::Socket(n) => (O_RDWR, fds.socket(n).nonblock),
        _ => (O_RDWR, false),
    };
    if on {
        flags | O_NONBLOCK
    } else {
        flags
    }
}

/// Whether a second descriptor may name what `r` names. Epoll sets and event
/// counters have one descriptor only.
pub open spec fn dup_able(r: Resource) -> bool {
    !(r is Epoll) && !(r is EventFd)
}

fn can_dup(r: Resource) -> (b: bool)
    ensures
        b == dup_able(r),
{
    match r {
        Resource::Epoll(_) | Resource::EventFd(_) => false,
        _ => true,
    }
}

/// The table in which `fd` names what `r` names.
pub open spec fn dup_into(f: FdModel, r: Resource, fd: u32, cloexec: bool) -> FdModel {
    f.bind(fd, r).with_cloexec(fd, cloexec)
}

/// What a system call on descriptors and memory leaves behind.
pub struct After {
    pub ret: int,
    pub fds: FdModel,
    pub mem: Seq<u8>,
}

/// `fcntl` with `F_DUPFD` or `F_DUPFD_CLOEXEC`.
pub open spec fn dup_from(f: FdModel, fd: u32, min: u32, cloexec: bool) -> (int, FdModel) {
    match f.at(fd as int) {
        Some(r) => {
            let to = lowest_free(f.slots, min);
            if !dup_able(r) {
                (-EBADF, f)
            } else if to >= FD_LIMIT {
                (-EMFILE, f)
            } else {
                (to as int, dup_into(f, r, to, cloexec))
            }
        },
        None => (-EBADF, f),
    }
}

/// What `fcntl` does.
pub open spec fn fcntl_after(f: FdModel, m: Seq<u8>, a: [i64; 6]) -> After {
    let fd = a[0] as u32;
    let cmd = a[1] as i32;
    let arg = a[2];
    if !(0 <= a[0] <= u32::MAX) {
        After { ret: -EBADF, fds: f, mem: m }
    } else if cmd == F_GETFL {
        After {
            ret: match f.at(a[0] as int) {
                Some(r) => status_flags(f, r) as int,
                None => -EBADF,
            },
            fds: f,
            mem: m,
        }
    } else if cmd == F_SETFL {
        match f.at(a[0] as int) {
            Some(r) => After {
                ret: 0,
                fds: with_nonblock(f, r, (arg as i32) & O_NONBLOCK != 0),
                mem: m,
            },
            None => After { ret: -EBADF, fds: f, mem: m },
        }
    } else if cmd == F_GETFD {
        let on: int = if f.slots.contains_key(fd) && f.slots[fd].cloexec {
            1
        } else {
            0
        };
        After {
            ret: on,
            fds: f,
            mem: if arg != 0 {
                written(m, arg as int, le(on as nat, 4))
            } else {
                m
            },
        }
    } else if cmd == F_SETFD {
        After { ret: 0, fds: f.with_cloexec(fd, (arg as i32) & 1 != 0), mem: m }
    } else if cmd == F_DUPFD || cmd == F_DUPFD_CLOEXEC {
        if (arg as i32) < 0 {
            After { ret: -EINVAL, fds: f, mem: m }
        } else {
            let (ret, fds) = dup_from(f, fd, arg as u32, cmd == F_DUPFD_CLOEXEC);
            After { ret, fds, mem: m }
        }
    } else {
        After { ret: -EINVAL, fds: f, mem: m }
    }
}

/// `fcntl(fd, cmd, arg)`.
pub fn fcntl(fds: &mut FdTable, mem: &mut [u8], a: [i64; 6]) -> (r: i64)
    requires
        old(fds)@.wf(),
    ensures
        r == fcntl_after(old(fds)@, old(mem)@, a).ret,
        final(fds)@ == fcntl_after(old(fds)@, old(mem)@, a).fds,
        final(mem)@ == fcntl_after(old(fds)@, old(mem)@, a).mem,
        final(mem)@.len() == old(mem)@.len(),
        final(fds)@.wf(),
{
    let fd: u32 = match fd_arg(a[0]) {
        Some(f) => f,
        None => {
            return -EBADF;
        },
    };
    let cmd: i32 = a[1] as i32;
    let arg: i64 = a[2];
    if cmd == F_GETFL {
        return match fds.get(fd) {
            Ok(r) => get_flags(fds, r) as i64,
            Err(e) => e,
        };
    }
    if cmd == F_SETFL {
        let want: bool = (arg as i32) & O_NONBLOCK != 0;
        return match fds.get(fd) {
            Ok(r) => {
                set_nonblock(fds, r, want);
                0
            },
            Err(e) => e,
        };
    }
    if cmd == F_GETFD {
        let on: u64 = if fds.get_cloexec(fd) {
            1
        } else {
            0
        };
        if arg != 0 {
            let mut b: Vec<u8> = Vec::new();
            push_le(&mut b, on, 4);
            assert(b@ =~= le(on as nat, 4));
            let _ = guest_write(mem, arg, b.as_slice());
        }
        return on as i64;
    }
    if cmd == F_SETFD {
        let on: bool = (arg as i32) & 1 != 0;
        fds.set_cloexec(fd, on);
        return 0;
    }
    if cmd == F_DUPFD || cmd == F_DUPFD_CLOEXEC {
        if (arg as i32) < 0 {
            return -EINVAL;
        }
        let min: u32 = arg as u32;
        let res: Resource = match fds.get(fd) {
            Ok(r) => r,
            Err(e) => {
                return e;
            },
        };
        if !can_dup(res) {
            return -EBADF;
        }
        return match fds.insert_at_least(min, res) {
            Ok(new_fd) => {
                fds.set_cloexec(new_fd, cmd == F_DUPFD_CLOEXEC);
                new_fd as i64
            },
            Err(e) => e,
        };
    }
    -EINVAL
}

/// What `dup`, `dup2` and `dup3` have in common: let another descriptor name what
/// `oldfd` names. The other descriptor is `target`, which is closed first if it
/// names something, or else the lowest free one that a new descriptor can get, below or
/// above `oldfd`.
pub open spec fn dup_after(
    f: FdModel,
    oldfd: u32,
    target: Option<u32>,
    cloexec: bool,
) -> (int, FdModel) {
    match f.at(oldfd as int) {
        Some(r) if dup_able(r) => match target {
            Some(t) => if t >= FD_LIMIT {
                (-EBADF, f.closed(t))
            } else {
                (t as int, dup_into(f.closed(t), r, t, cloexec))
            },
            None => dup_from(f, oldfd, 3, cloexec),
        },
        _ => (-EBADF, f),
    }
}

/// Let another descriptor name what `oldfd` names.
pub fn internal_dup(
    fds: &mut FdTable,
    oldfd: u32,
    target: Option<u32>,
    want_cloexec: bool,
) -> (r: i64)
    requires
        old(fds)@.wf(),
        target != Some(oldfd),
    ensures
        r == dup_after(old(fds)@, oldfd, target, want_cloexec).0,
        final(fds)@ == dup_after(old(fds)@, oldfd, target, want_cloexec).1,
        final(fds)@.wf(),
{
    let res: Resource = match fds.get(oldfd) {
        Ok(r) => r,
        Err(e) => {
            return e;
        },
    };
    if !can_dup(res) {
        return -EBADF;
    }
    let new_fd: u32 = match target {
        Some(t) => {
            let _ = fds.close(t);
            proof {
                assert(fds@.slots.contains_key(oldfd));
                assert(fds@.slots[oldfd] == old(fds)@.slots[oldfd]);
            }
            match fds.insert_at(t, res) {
                Ok(fd) => fd,
                Err(e) => {
                    return e;
                },
            }
        },
        None => {
            match fds.insert_at_least(3, res) {
                Ok(fd) => fd,
                Err(e) => {
                    return e;
                },
            }
        },
    };
    fds.set_cloexec(new_fd, want_cloexec);
    new_fd as i64
}

/// What `dup` does.
pub open spec fn dup_call(f: FdModel, a: [i64; 6]) -> (int, FdModel) {
    if 0 <= a[0] <= u32::MAX {
        dup_after(f, a[0] as u32, None, false)
    } else {
        (-EBADF, f)
    }
}

/// `dup(oldfd)`: the lowest free descriptor names what `oldfd` names.
pub fn dup(fds: &mut FdTable, a: [i64; 6]) -> (r: i64)
    requires
        old(fds)@.wf(),
    ensures
        final(fds)@.wf(),
        r == dup_call(old(fds)@, a).0,
        final(fds)@ == dup_call(old(fds)@, a).1,
{
    match fd_arg(a[0]) {
        Some(oldfd) => internal_dup(fds, oldfd, None, false),
        None => -EBADF,
    }
}

/// What `dup2` does. On one and the same descriptor it changes nothing.
pub open spec fn dup2_after(f: FdModel, a: [i64; 6]) -> (int, FdModel) {
    if !(0 <= a[0] <= u32::MAX) || !(0 <= a[1] <= u32::MAX) {
        (-EBADF, f)
    } else if a[0] == a[1] {
        (if f.at(a[0] as int) is Some {
            a[1] as int
        } else {
            -EBADF
        }, f)
    } else {
        dup_after(f, a[0] as u32, Some(a[1] as u32), false)
    }
}

/// `dup2(oldfd, newfd)`.
pub fn dup2(fds: &mut FdTable, a: [i64; 6]) -> (r: i64)
    requires
        old(fds)@.wf(),
    ensures
        r == dup2_after(old(fds)@, a).0,
        final(fds)@ == dup2_after(old(fds)@, a).1,
        final(fds)@.wf(),
{
    let oldfd: u32 = match fd_arg(a[0]) {
        Some(f) => f,
        None => {
            return -EBADF;
        },
    };
    let newfd: u32 = match fd_arg(a[1]) {
        Some(f) => f,
        None => {
            return -EBADF;
        },
    };
    if oldfd == newfd {
        return match fds.get(oldfd) {
            Ok(_) => newfd as i64,
            Err(e) => e,
        };
    }
    internal_dup(fds, oldfd, Some(newfd), false)
}

/// What `dup3` does: as `dup2`, but one and the same descriptor is refused, and so
/// is any flag but `O_CLOEXEC`.
pub open spec fn dup3_after(f: FdModel, a: [i64; 6]) -> (int, FdModel) {
    let flags = a[2] as i32;
    if !(0 <= a[0] <= u32::MAX) || !(0 <= a[1] <= u32::MAX) {
        (-EBADF, f)
    } else if flags & !O_CLOEXEC != 0 {
        (-EINVAL, f)
    } else if a[0] == a[1] {
        (-EINVAL, f)
    } else {
        dup_after(f, a[0] as u32, Some(a[1] as u32), flags & O_CLOEXEC != 0)
    }
}

/// `dup3(oldfd, newfd, flags)`.
pub fn dup3(fds: &mut FdTable, a: [i64; 6]) -> (r: i64)
    requires
        old(fds)@.wf(),
    ensures
        r == dup3_after(old(fds)@, a).0,
        final(fds)@ == dup3_after(old(fds)@, a).1,
        final(fds)@.wf(),
{
    let oldfd: u32 = match fd_arg(a[0]) {
        Some(f) => f,
        None => {
            return -EBADF;
        },
    };
    let newfd: u32 = match fd_arg(a[1]) {
        Some(f) => f,
        None => {
            return -EBADF;
        },
    };
    let flags: i32 = a[2] as i32;
    if flags & !O_CLOEXEC != 0 {
        return -EINVAL;
    }
    if oldfd == newfd {
        return -EINVAL;
    }
    internal_dup(fds, oldfd, Some(newfd), flags & O_CLOEXEC != 0)
}

/// What `close` does.
pub open spec fn close_after(f: FdModel, a: [i64; 6]) -> (int, FdModel) {
    if f.at(a[0] as int) is Some {
        (0, f.closed(a[0] as u32))
    } else {
        (-EBADF, f)
    }
}

/// `close(fd)`.
pub fn close(fds: &mut FdTable, a: [i64; 6]) -> (r: i64)
    requires
        old(fds)@.wf(),
    ensures
        r == close_after(old(fds)@, a).0,
        final(fds)@ == close_after(old(fds)@, a).1,
        final(fds)@.wf(),
{
    let fd: u32 = match fd_arg(a[0]) {
        Some(f) => f,
        None => {
            return -EBADF;
        },
    };
    match fds.close(fd) {
        Ok(_) => 0,
        Err(e) => e,
    }
}

/// The table with a new pipe in it, and the descriptors of its ends.
pub open spec fn pipe_opened(f: FdModel, nonblock: bool, cloexec: bool) -> (FdModel, u32, u32) {
    let n = f.next_id;
    let rd = lowest_free(f.slots, 3);
    let one = f.with_pipe(n, fresh_pipe(nonblock)).numbered().bind(rd, Resource::PipeRead(n));
    let wr = lowest_free(one.slots, 3);
    let both = one.bind(wr, Resource::PipeWrite(n));
    (both.with_cloexec(rd, cloexec).with_cloexec(wr, cloexec), rd, wr)
}

/// What making a pipe does: its two descriptors go to `ptr`, the reading end first.
pub open spec fn pipe_after(f: FdModel, m: Seq<u8>, ptr: int, nonblock: bool, cloexec: bool) -> After {
    let (g, rd, wr) = pipe_opened(f, nonblock, cloexec);
    match bounds_answer(m.len(), ptr, 8) {
        Ok(_) => After {
            ret: 0,
            fds: g,
            mem: splice(m, ptr, le(rd as nat, 4) + le(wr as nat, 4)),
        },
        Err(e) => After { ret: e as int, fds: f, mem: m },
    }
}

/// What `pipe2` does.
pub open spec fn pipe2_after(f: FdModel, m: Seq<u8>, a: [i64; 6]) -> After {
    pipe_after(
        f,
        m,
        a[0] as int,
        (a[1] as i32) & O_NONBLOCK != 0,
        (a[1] as i32) & O_CLOEXEC != 0,
    )
}

/// `pipe2(fdarray, flags)`: a new pipe. Its two descriptors, the read end first, are
/// written to `fdarray`. `O_NONBLOCK` makes the pipe non-blocking, `O_CLOEXEC` is
/// recorded of both ends, and other flags have no effect.
pub fn pipe2(fds: &mut FdTable, mem: &mut [u8], a: [i64; 6]) -> (r: i64)
    requires
        old(fds)@.wf(),
        old(fds)@.room(2),
    ensures
        final(fds)@.wf(),
        final(mem)@.len() == old(mem)@.len(),
        (After { ret: r as int, fds: final(fds)@, mem: final(mem)@ }) == pipe2_after(
            old(fds)@,
            old(mem)@,
            a,
        ),
{
    let flags: i32 = a[1] as i32;
    match check_range(mem.len(), a[0], 8) {
        Ok(_) => {},
        Err(e) => {
            return e;
        },
    }
    let n: u64 = fds.make_pipe(flags & O_NONBLOCK != 0);
    let rd: u32 = fds.insert(Resource::PipeRead(n));
    proof {
        assert(fds@.slots.len() <= old(fds)@.slots.len() + 1);
    }
    let wr: u32 = fds.insert(Resource::PipeWrite(n));
    fds.set_cloexec(rd, flags & O_CLOEXEC != 0);
    fds.set_cloexec(wr, flags & O_CLOEXEC != 0);
    let mut b: Vec<u8> = Vec::new();
    push_le(&mut b, rd as u64, 4);
    push_le(&mut b, wr as u64, 4);
    assert(b@ =~= le(rd as nat, 4) + le(wr as nat, 4));
    match guest_write(mem, a[0], b.as_slice()) {
        Ok(_) => 0,
        Err(e) => e,
    }
}

/// `pipe(fdarray)`: `pipe2` without flags.
pub fn pipe(fds: &mut FdTable, mem: &mut [u8], a: [i64; 6]) -> (r: i64)
    requires
        old(fds)@.wf(),
        old(fds)@.room(2),
    ensures
        final(fds)@.wf(),
        final(mem)@.len() == old(mem)@.len(),
        (After { ret: r as int, fds: final(fds)@, mem: final(mem)@ }) == pipe_after(
            old(fds)@,
            old(mem)@,
            a[0] as int,
            false,
            false,
        ),
{
    assert((0i64 as i32) & 0o4000i32 == 0 && (0i64 as i32) & 0o2000000i32 == 0) by (bit_vector);
    pipe2(fds, mem, [a[0], 0, 0, 0, 0, 0])
}

/// What is left to do of a `read`.
#[derive(Clone, Copy, PartialEq, Eq, Structural, Debug)]
pub enum ReadStep {
    /// Nothing: this is the result.
    Done(i64),
    /// Read up to `len` bytes of the file from `pos` on; `read_file_done` finishes.
    File { file: u64, pos: u64, len: usize },
    /// Receive from the socket; `recvfrom` takes over.
    Socket,
}

/// What a `read` leaves behind.
pub struct ReadAfter {
    pub step: ReadStep,
    pub fds: FdModel,
    pub mem: Seq<u8>,
}

pub open spec fn read_ends(ret: int, f: FdModel, m: Seq<u8>) -> ReadAfter {
    ReadAfter { step: ReadStep::Done(ret as i64), fds: f, mem: m }
}

/// At most `len` bytes from the front of `s`.
pub open spec fn front(s: Seq<u8>, len: int) -> Seq<u8> {
    if len <= s.len() {
        s.take(len)
    } else {
        s
    }
}

/// Reading up to `len` bytes from pipe `n` into the memory at `ptr`. A pipe without
/// bytes is at its end if it was closed, and else has nothing to give yet.
pub open spec fn read_pipe_after(
    f: FdModel,
    m: Seq<u8>,
    n: u64,
    ptr: int,
    len: int,
) -> ReadAfter {
    let p = f.pipes[n];
    let data = front(p.buf, len);
    if p.buf.len() == 0 {
        read_ends(if p.closed {
            0
        } else {
            -EAGAIN
        }, f, m)
    } else {
        read_ends(
            data.len() as int,
            f.with_pipe(n, PipeModel { buf: p.buf.skip(data.len() as int), ..p }),
            splice(m, ptr, data),
        )
    }
}

/// Reading the event counter `n` into the memory at `ptr`.
pub open spec fn read_counter_after(
    f: FdModel,
    m: Seq<u8>,
    n: u64,
    ptr: int,
    len: int,
) -> ReadAfter {
    let e = f.eventfds[n];
    if len < 8 {
        read_ends(-EINVAL, f, m)
    } else {
        match drain_result(e) {
            Err(c) => read_ends(c as int, f, m),
            Ok(v) => if v == 0 {
                read_ends(0, f, m)
            } else {
                read_ends(8, f.with_eventfd(n, drained(e)), splice(m, ptr, le(v as nat, 8)))
            },
        }
    }
}

/// What `read` does.
pub open spec fn read_after(f: FdModel, m: Seq<u8>, a: [i64; 6]) -> ReadAfter {
    if !(0 <= a[0] <= u32::MAX) {
        read_ends(-EBADF, f, m)
    } else if !in_bounds(m.len(), a[1] as int, a[2] as int) {
        read_ends(-EFAULT, f, m)
    } else if a[2] == 0 {
        read_ends(0, f, m)
    } else {
        match f.at(a[0] as int) {
            Some(Resource::Stdin(n)) => read_pipe_after(f, m, n, a[1] as int, a[2] as int),
            Some(Resource::PipeRead(n)) => read_pipe_after(f, m, n, a[1] as int, a[2] as int),
            Some(Resource::File(n)) => ReadAfter {
                step: ReadStep::File { file: n, pos: f.files[n].pos, len: a[2] as usize },
                fds: f,
                mem: m,
            },
            Some(Resource::EventFd(n)) => read_counter_after(f, m, n, a[1] as int, a[2] as int),
            Some(Resource::Socket(_)) => ReadAfter { step: ReadStep::Socket, fds: f, mem: m },
            _ => read_ends(-EBADF, f, m),
        }
    }
}

/// Take up to `len` bytes from the front of the queue.
fn take_front(q: &mut VecDeque<u8>, len: usize) -> (r: Vec<u8>)
    ensures
        r@ == front(old(q)@, len as int),
        final(q)@ == old(q)@.skip(r@.len() as int),
        r@.len() <= len,
{
    let mut out: Vec<u8> = Vec::new();
    let mut i: usize = 0;
    assert(q@ =~= old(q)@.skip(0));
    assert(out@ =~= old(q)@.take(0));
    while i < len && q.len() > 0
        invariant
            i <= len,
            i == out@.len(),
            i <= old(q)@.len(),
            out@ == old(q)@.take(i as int),
            q@ == old(q)@.skip(i as int),
        decreases len - i,
    {
        let ghost before = q@;
        match q.pop_front() {
            Some(b) => {
                out.push(b);
                i = i + 1;
                assert(out@ =~= old(q)@.take(i as int));
                assert(q@ =~= old(q)@.skip(i as int));
            },
            None => {},
        }
    }
    assert(out@ =~= front(old(q)@, len as int));
    out
}

fn read_pipe(fds: &mut FdTable, mem: &mut [u8], n: u64, ptr: i64, len: usize) -> (r: ReadStep)
    requires
        old(fds)@.wf(),
        old(fds)@.pipes.contains_key(n),
        in_bounds(old(mem)@.len(), ptr as int, len as int),
        0 < len <= i64::MAX,
    ensures
        r == read_pipe_after(old(fds)@, old(mem)@, n, ptr as int, len as int).step,
        final(fds)@ == read_pipe_after(old(fds)@, old(mem)@, n, ptr as int, len as int).fds,
        final(mem)@ == read_pipe_after(old(fds)@, old(mem)@, n, ptr as int, len as int).mem,
        final(mem)@.len() == old(mem)@.len(),
        final(fds)@.wf(),
{
    let p: &Pipe = fds.pipe(n);
    if p.buf.len() == 0 {
        return ReadStep::Done(
            if p.closed {
                0
            } else {
                -EAGAIN
            },
        );
    }
    let mut p: Pipe = fds.take_pipe(n);
    let data: Vec<u8> = take_front(&mut p.buf, len);
    fds.put_pipe(n, p);
    let _ = guest_write(mem, ptr, data.as_slice());
    ReadStep::Done(data.len() as i64)
}

fn read_counter(fds: &mut FdTable, mem: &mut [u8], n: u64, ptr: i64, len: i64) -> (r: ReadStep)
    requires
        old(fds)@.wf(),
        old(fds)@.eventfds.contains_key(n),
        in_bounds(old(mem)@.len(), ptr as int, len as int),
    ensures
        r == read_counter_after(old(fds)@, old(mem)@, n, ptr as int, len as int).step,
        final(fds)@ == read_counter_after(old(fds)@, old(mem)@, n, ptr as int, len as int).fds,
        final(mem)@ == read_counter_after(old(fds)@, old(mem)@, n, ptr as int, len as int).mem,
        final(mem)@.len() == old(mem)@.len(),
        final(fds)@.wf(),
{
    match require_u64_buf(len) {
        Ok(_) => {},
        Err(e) => {
            return ReadStep::Done(e);
        },
    }
    let mut e: EventFdInner = fds.event_counter(n);
    match eventfd_read(&mut e) {
        Err(c) => ReadStep::Done(c),
        Ok(v) => {
            if v == 0 {
                return ReadStep::Done(0);
            }
            fds.put_eventfd(n, e);
            let mut b: Vec<u8> = Vec::new();
            push_le(&mut b, v, 8);
            assert(b@ =~= le(v as nat, 8));
            let _ = guest_write(mem, ptr, b.as_slice());
            ReadStep::Done(8)
        },
    }
}

/// `read(fd, buf, len)`.
pub fn read(fds: &mut FdTable, mem: &mut [u8], a: [i64; 6]) -> (r: ReadStep)
    requires
        old(fds)@.wf(),
    ensures
        r == read_after(old(fds)@, old(mem)@, a).step,
        final(fds)@ == read_after(old(fds)@, old(mem)@, a).fds,
        final(mem)@ == read_after(old(fds)@, old(mem)@, a).mem,
        final(mem)@.len() == old(mem)@.len(),
        final(fds)@.wf(),
{
    let fd: u32 = match fd_arg(a[0]) {
        Some(f) => f,
        None => {
            return ReadStep::Done(-EBADF);
        },
    };
    match check_range(mem.len(), a[1], a[2]) {
        Ok(_) => {},
        Err(e) => {
            return ReadStep::Done(e);
        },
    }
    let len: usize = a[2] as usize;
    if len == 0 {
        return ReadStep::Done(0);
    }
    let res: Resource = match fds.get(fd) {
        Ok(r) => r,
        Err(e) => {
            return ReadStep::Done(e);
        },
    };
    match res {
        Resource::Stdin(n) => read_pipe(fds, mem, n, a[1], len),
        Resource::PipeRead(n) => read_pipe(fds, mem, n, a[1], len),
        Resource::File(n) => ReadStep::File { file: n, pos: fds.file(n).pos, len },
        Resource::EventFd(n) => read_counter(fds, mem, n, a[1], a[2]),
        Resource::Socket(_) => ReadStep::Socket,
        _ => ReadStep::Done(-EBADF),
    }
}

/// Add what the host read next to what it read so far, up to `len` bytes in all.
/// The result tells whether the read is complete: at the end of the file, where the
/// host read nothing, or with `len` bytes.
pub fn file_chunk(got: &mut Vec<u8>, len: usize, chunk: &[u8]) -> (done: bool)
    requires
        old(got)@.len() <= len,
    ensures
        final(got)@ == old(got)@ + front(chunk@, len - old(got)@.len()),
        final(got)@.len() <= len,
        done == (chunk@.len() == 0 || final(got)@.len() == len),
{
    let k: usize = chunk.len();
    if k == 0 {
        assert(front(chunk@, len - old(got)@.len()) =~= Seq::<u8>::empty());
        assert(got@ =~= old(got)@ + front(chunk@, len - old(got)@.len()));
        return true;
    }
    let remaining: usize = len - got.len();
    if k > remaining {
        crate::bytes::push_bytes(got, slice_subrange(chunk, 0, remaining));
        assert(chunk@.subrange(0, remaining as int) =~= front(chunk@, remaining as int));
        true
    } else {
        crate::bytes::push_bytes(got, chunk);
        assert(front(chunk@, remaining as int) =~= chunk@);
        got.len() >= len
    }
}

/// The table after `n` bytes of the file were read or written at its position.
pub open spec fn file_moved(f: FdModel, file: u64, n: int) -> FdModel {
    let p = f.files[file];
    f.with_file(file, FileModel { pos: (p.pos + n) as u64, ..p })
}

/// What the end of reading a file does with the bytes that came, if any could be read.
pub open spec fn read_done_after(
    f: FdModel,
    m: Seq<u8>,
    file: u64,
    buf_ptr: int,
    got: Option<Seq<u8>>,
) -> After {
    match got {
        None => After { ret: -EACCES, fds: f, mem: m },
        Some(g) => After {
            ret: g.len() as int,
            fds: file_moved(f, file, g.len() as int),
            mem: splice(m, buf_ptr, g),
        },
    }
}

/// Finish the `read` of a file: `got` are the bytes that the host read, or `None`
/// where it failed. No bytes means that the file ends there.
pub fn read_file_done(
    fds: &mut FdTable,
    mem: &mut [u8],
    file: u64,
    buf_ptr: i64,
    got: Option<Vec<u8>>,
) -> (r: i64)
    requires
        old(fds)@.wf(),
        old(fds)@.files.contains_key(file),
        got matches Some(g) ==> in_bounds(old(mem)@.len(), buf_ptr as int, g@.len() as int)
            && old(fds)@.files[file].pos + g@.len() <= u64::MAX && g@.len() <= i64::MAX,
    ensures
        final(mem)@.len() == old(mem)@.len(),
        final(fds)@.wf(),
        (After { ret: r as int, fds: final(fds)@, mem: final(mem)@ }) == read_done_after(
            old(fds)@,
            old(mem)@,
            file,
            buf_ptr as int,
            bytes_view(got),
        ),
{
    let g: Vec<u8> = match got {
        None => {
            return -EACCES;
        },
        Some(g) => g,
    };
    let n: usize = g.len();
    let mut p: FilePos = fds.take_file(file);
    p.pos = p.pos + n as u64;
    fds.put_file(file, p);
    let _ = guest_write(mem, buf_ptr, g.as_slice());
    n as i64
}

/// What is left to do of a `write`.
pub enum WriteStep {
    /// Nothing: this is the result, and these waits are to be woken.
    Done { ret: i64, wake: WakeSource },
    /// Write the bytes to the file from `pos` on; `write_file_done` finishes.
    File { file: u64, pos: u64, bytes: Vec<u8> },
    /// Send to the socket; `sendto` takes over.
    Socket,
}

pub enum WriteModel {
    Done { ret: int, wake: WakeSource },
    File { file: u64, pos: u64, bytes: Seq<u8> },
    Socket,
}

impl View for WriteStep {
    type V = WriteModel;

    open spec fn view(&self) -> WriteModel {
        match self {
            WriteStep::Done { ret, wake } => WriteModel::Done { ret: *ret as int, wake: *wake },
            WriteStep::File { file, pos, bytes } => WriteModel::File {
                file: *file,
                pos: *pos,
                bytes: bytes@,
            },
            WriteStep::Socket => WriteModel::Socket,
        }
    }
}

/// What a `write` leaves behind.
pub struct WriteAfter {
    pub step: WriteModel,
    pub fds: FdModel,
}

pub open spec fn write_ends(ret: int, f: FdModel) -> WriteAfter {
    WriteAfter { step: WriteModel::Done { ret, wake: WakeSource::Never }, fds: f }
}

/// Writing `b` to the pipe `n`. Readers wait for an empty pipe only, so they are
/// woken only where it was empty.
pub open spec fn write_pipe_after(f: FdModel, n: u64, b: Seq<u8>) -> WriteAfter {
    let p = f.pipes[n];
    WriteAfter {
        step: WriteModel::Done {
            ret: b.len() as int,
            wake: if p.buf.len() == 0 {
                WakeSource::Pipe(n)
            } else {
                WakeSource::Never
            },
        },
        fds: f.with_pipe(n, PipeModel { buf: p.buf + b, ..p }),
    }
}

/// What `write` does.
pub open spec fn write_after(f: FdModel, m: Seq<u8>, a: [i64; 6]) -> WriteAfter {
    let b = window(m, a[1] as int, a[2] as int);
    if !(0 <= a[0] <= u32::MAX) {
        write_ends(-EBADF, f)
    } else if !in_bounds(m.len(), a[1] as int, a[2] as int) {
        write_ends(-EFAULT, f)
    } else if a[2] == 0 {
        write_ends(0, f)
    } else {
        match f.at(a[0] as int) {
            Some(Resource::Stdout(n)) => write_pipe_after(f, n, b),
            Some(Resource::Stderr(n)) => write_pipe_after(f, n, b),
            Some(Resource::PipeWrite(n)) => write_pipe_after(f, n, b),
            Some(Resource::File(n)) => WriteAfter {
                step: WriteModel::File { file: n, pos: f.files[n].pos, bytes: b },
                fds: f,
            },
            Some(Resource::EventFd(n)) => if a[2] < 8 {
                write_ends(-EINVAL, f)
            } else {
                WriteAfter {
                    step: WriteModel::Done { ret: 8, wake: WakeSource::EventFd(n) },
                    fds: f.with_eventfd(
                        n,
                        raised(f.eventfds[n], word_at(m, a[1] as int, 8) as u64),
                    ),
                }
            },
            Some(Resource::Socket(_)) => WriteAfter { step: WriteModel::Socket, fds: f },
            _ => write_ends(-EBADF, f),
        }
    }
}

fn write_pipe(fds: &mut FdTable, n: u64, bytes: Vec<u8>) -> (r: WriteStep)
    requires
        old(fds)@.wf(),
        old(fds)@.pipes.contains_key(n),
        bytes@.len() <= i64::MAX,
    ensures
        r@ == write_pipe_after(old(fds)@, n, bytes@).step,
        final(fds)@ == write_pipe_after(old(fds)@, n, bytes@).fds,
        final(fds)@.wf(),
{
    let mut p: Pipe = fds.take_pipe(n);
    let was_empty: bool = p.buf.len() == 0;
    let len: usize = bytes.len();
    let ghost before = p@;
    let mut i: usize = 0;
    assert(p.buf@ =~= before.buf + bytes@.take(0));
    while i < len
        invariant
            i <= len,
            len == bytes@.len(),
            p.buf@ == before.buf + bytes@.take(i as int),
            p@ == (PipeModel { buf: p.buf@, ..before }),
        decreases len - i,
    {
        p.buf.push_back(bytes[i]);
        i = i + 1;
        assert(p.buf@ =~= before.buf + bytes@.take(i as int));
    }
    assert(bytes@.take(len as int) =~= bytes@);
    fds.put_pipe(n, p);
    let wake: WakeSource = if was_empty {
        WakeSource::Pipe(n)
    } else {
        WakeSource::Never
    };
    WriteStep::Done { ret: len as i64, wake }
}

/// `write(fd, buf, len)`.
pub fn write(fds: &mut FdTable, mem: &[u8], a: [i64; 6]) -> (r: WriteStep)
    requires
        old(fds)@.wf(),
    ensures
        r@ == write_after(old(fds)@, mem@, a).step,
        final(fds)@ == write_after(old(fds)@, mem@, a).fds,
        final(fds)@.wf(),
{
    let fd: u32 = match fd_arg(a[0]) {
        Some(f) => f,
        None => {
            return WriteStep::Done { ret: -EBADF, wake: WakeSource::Never };
        },
    };
    let bytes: Vec<u8> = match guest_slice(mem, a[1], a[2]) {
        Ok(b) => b,
        Err(e) => {
            return WriteStep::Done { ret: e, wake: WakeSource::Never };
        },
    };
    if bytes.len() == 0 {
        return WriteStep::Done { ret: 0, wake: WakeSource::Never };
    }
    let res: Resource = match fds.get(fd) {
        Ok(r) => r,
        Err(e) => {
            return WriteStep::Done { ret: e, wake: WakeSource::Never };
        },
    };
    match res {
        Resource::Stdout(n) => write_pipe(fds, n, bytes),
        Resource::Stderr(n) => write_pipe(fds, n, bytes),
        Resource::PipeWrite(n) => write_pipe(fds, n, bytes),
        Resource::File(n) => WriteStep::File { file: n, pos: fds.file(n).pos, bytes },
        Resource::EventFd(n) => {
            match require_u64_buf(a[2]) {
                Ok(_) => {},
                Err(e) => {
                    return WriteStep::Done { ret: e, wake: WakeSource::Never };
                },
            }
            let addend: u64 = read_le(bytes.as_slice(), 0, 8);
            assert(bytes@.subrange(0, 8) =~= window(mem@, a[1] as int, 8));
            let mut e: EventFdInner = fds.event_counter(n);
            let _ = eventfd_write(&mut e, addend);
            fds.put_eventfd(n, e);
            WriteStep::Done { ret: 8, wake: WakeSource::EventFd(n) }
        },
        Resource::Socket(_) => WriteStep::Socket,
        _ => WriteStep::Done { ret: -EBADF, wake: WakeSource::Never },
    }
}

/// What the end of writing a file does with the number of bytes that were written.
pub open spec fn write_done_after(f: FdModel, file: u64, wrote: Option<usize>) -> (int, FdModel) {
    match wrote {
        None => (-EIO, f),
        Some(n) => (n as int, file_moved(f, file, n as int)),
    }
}

/// Finish the `write` of a file: how many bytes the host wrote, or `None` where it
/// failed.
pub fn write_file_done(fds: &mut FdTable, file: u64, wrote: Option<usize>) -> (r: i64)
    requires
        old(fds)@.wf(),
        old(fds)@.files.contains_key(file),
        wrote matches Some(n) ==> n <= i64::MAX && old(fds)@.files[file].pos + n <= u64::MAX,
    ensures
        final(fds)@.wf(),
        r == write_done_after(old(fds)@, file, wrote).0,
        final(fds)@ == write_done_after(old(fds)@, file, wrote).1,
{
    match wrote {
        None => -EIO,
        Some(n) => {
            let mut p: FilePos = fds.take_file(file);
            p.pos = p.pos + n as u64;
            fds.put_file(file, p);
            n as i64
        },
    }
}

/// What is written to one end of a pipe is read from the other, in order: a read
/// after a write gives the bytes that were there before, and then those written.
pub proof fn pipe_is_a_queue(f: FdModel, m: Seq<u8>, n: u64, b: Seq<u8>, ptr: int, len: int)
    requires
        f.pipes.contains_key(n),
        b.len() > 0,
        len >= f.pipes[n].buf.len() + b.len(),
        in_bounds(m.len(), ptr, len),
        len <= i64::MAX,
    ensures
        ({
            let all = f.pipes[n].buf + b;
            let r = read_pipe_after(write_pipe_after(f, n, b).fds, m, n, ptr, len);
            &&& r.step == ReadStep::Done(all.len() as i64)
            &&& window(r.mem, ptr, all.len() as int) == all
            &&& r.fds.pipes[n].buf == Seq::<u8>::empty()
        }),
{
    let all = f.pipes[n].buf + b;
    assert(front(all, len) =~= all);
    assert(window(splice(m, ptr, all), ptr, all.len() as int) =~= all);
    assert(all.skip(all.len() as int) =~= Seq::<u8>::empty());
}

/// Reading a pipe in two goes gives the same bytes as reading it in one.
pub proof fn pipe_reads_split(s: Seq<u8>, len: int, more: int)
    requires
        0 <= len <= s.len(),
        0 <= more,
    ensures
        front(s, len) + front(s.skip(len), more) == front(s, len + more),
        s.skip(len).skip(front(s.skip(len), more).len() as int) == s.skip(
            front(s, len + more).len() as int,
        ),
{
    assert(front(s, len) + front(s.skip(len), more) =~= front(s, len + more));
    assert(s.skip(len).skip(front(s.skip(len), more).len() as int) =~= s.skip(
        front(s, len + more).len() as int,
    ));
}

/// The base and the length in the `i`-th `struct iovec` of the array `b`.
pub open spec fn iovec_at(b: Seq<u8>, i: int) -> (i64, i64) {
    (word_at(b, i * 8, 4) as i64, word_at(b, i * 8 + 4, 4) as i64)
}

/// The buffers that an array of `struct iovec` describes.
pub open spec fn iovecs(b: Seq<u8>) -> Seq<(i64, i64)> {
    Seq::new(b.len() / 8, |i: int| iovec_at(b, i))
}

/// The buffers that `b` describes.
pub fn parse_iovecs(b: &[u8]) -> (r: Vec<(i64, i64)>)
    ensures
        r@ == iovecs(b@),
        forall|i: int| 0 <= i < r@.len() ==> 0 <= (#[trigger] r@[i]).0 <= u32::MAX && 0 <= r@[i].1
            <= u32::MAX,
{
    let size: usize = b.len();
    let n: usize = size / 8;
    let mut out: Vec<(i64, i64)> = Vec::new();
    let mut i: usize = 0;
    proof {
        crate::bytes::pow256_values();
    }
    while i < n
        invariant
            i <= n,
            size == b@.len(),
            n == size / 8,
            out@.len() == i,
            crate::bytes::pow256(4) == 0x1_0000_0000,
            forall|j: int| 0 <= j < i ==> #[trigger] out@[j] == iovec_at(b@, j),
            forall|j: int| 0 <= j < i ==> 0 <= (#[trigger] out@[j]).0 <= u32::MAX && 0 <= out@[j].1
                <= u32::MAX,
        decreases n - i,
    {
        assert(i * 8 + 8 <= size);
        let base: u64 = read_le(b, i * 8, 4);
        let len: u64 = read_le(b, i * 8 + 4, 4);
        out.push((base as i64, len as i64));
        i = i + 1;
    }
    assert(out@ =~= iovecs(b@));
    out
}

/// A `readv` or `writev` under way: buffer after buffer is handed to `read` or
/// `write`, until one moves less than its length or fails.
pub struct IovProgress {
    pub fd: i64,
    pub entries: Vec<(i64, i64)>,
    /// The buffers before this one are done with.
    pub at: usize,
    /// The bytes moved so far.
    pub total: i64,
    /// The result, once there is one.
    pub outcome: Option<i64>,
}

/// The result of handing the buffers `v` over one by one, where `results` are what
/// the calls for the non-empty ones return, in order, after `total` bytes have been
/// moved already. Empty buffers need no call. A failure ends the transfer; it is
/// the result where nothing has been moved. So does a short count.
pub open spec fn transfer(v: Seq<(i64, i64)>, results: Seq<int>, total: int) -> int
    decreases v.len(),
{
    if v.len() == 0 {
        total
    } else if v[0].1 == 0 {
        transfer(v.drop_first(), results, total)
    } else if results.len() == 0 {
        total
    } else if results[0] < 0 {
        if total == 0 {
            results[0]
        } else {
            total
        }
    } else if results[0] < v[0].1 {
        total + results[0]
    } else {
        transfer(v.drop_first(), results.drop_first(), total + results[0])
    }
}

/// The bytes that the buffers hold together.
pub open spec fn capacity(v: Seq<(i64, i64)>) -> int
    decreases v.len(),
{
    if v.len() == 0 {
        0
    } else {
        v[0].1 + capacity(v.drop_first())
    }
}

/// Whether no call moves more than its buffer holds.
pub open spec fn answers_fit(v: Seq<(i64, i64)>, results: Seq<int>) -> bool
    decreases v.len(),
{
    if v.len() == 0 {
        true
    } else if v[0].1 == 0 {
        answers_fit(v.drop_first(), results)
    } else {
        results.len() == 0 || (results[0] <= v[0].1 && answers_fit(
            v.drop_first(),
            results.drop_first(),
        ))
    }
}

/// A transfer moves no more than the buffers hold, and fails only where nothing has
/// been moved.
pub proof fn transfer_is_bounded(v: Seq<(i64, i64)>, results: Seq<int>, total: int)
    requires
        0 <= total,
        forall|i: int| 0 <= i < v.len() ==> 0 <= (#[trigger] v[i]).1,
        answers_fit(v, results),
    ensures
        capacity(v) >= 0,
        transfer(v, results, total) <= total + capacity(v),
        transfer(v, results, total) >= total || (total == 0 && results.contains(
            transfer(v, results, total),
        )),
    decreases v.len(),
{
    if v.len() > 0 {
        let w = v.drop_first();
        assert forall|i: int| 0 <= i < w.len() implies 0 <= (#[trigger] w[i]).1 by {
            assert(w[i] == v[i + 1]);
        }
        assert(v[0].1 >= 0);
        let rest = results.drop_first();
        if v[0].1 == 0 {
            transfer_is_bounded(w, results, total);
        } else if results.len() == 0 {
            assert(answers_fit(w, Seq::empty())) by {
                no_answers_fit(w);
            }
            transfer_is_bounded(w, Seq::empty(), total);
        } else if results[0] < 0 || results[0] < v[0].1 {
            transfer_is_bounded(w, rest, total);
            assert(results.contains(results[0]));
        } else {
            transfer_is_bounded(w, rest, total + results[0]);
        }
    }
}

proof fn no_answers_fit(v: Seq<(i64, i64)>)
    ensures
        answers_fit(v, Seq::empty()),
    decreases v.len(),
{
    if v.len() > 0 {
        no_answers_fit(v.drop_first());
    }
}

/// Guest addresses have 32 bits: a memory has at most this many bytes.
pub const GUEST_LIMIT: u64 = 0x1_0000_0000;

impl IovProgress {
    pub open spec fn wf(self) -> bool {
        &&& self.at <= self.entries@.len()
        &&& self.entries@.len() <= 0x2000_0000
        &&& 0 <= self.total <= self.at * 0xffff_ffff
        &&& forall|i: int|
            0 <= i < self.entries@.len() ==> 0 <= (#[trigger] self.entries@[i]).0 <= u32::MAX && 0
                <= self.entries@[i].1 <= u32::MAX
    }

    /// What the transfer comes to if the calls still to be made return `results`.
    pub open spec fn comes_to(self, results: Seq<int>) -> int {
        match self.outcome {
            Some(r) => r as int,
            None => transfer(self.entries@.skip(self.at as int), results, self.total as int),
        }
    }

    /// The arguments of the next call to make, if there is one. Otherwise the
    /// outcome is there.
    pub fn next(&mut self) -> (r: Option<[i64; 6]>)
        requires
            old(self).wf(),
        ensures
            final(self).wf(),
            final(self).entries == old(self).entries,
            final(self).total == old(self).total,
            final(self).fd == old(self).fd,
            r is None <==> final(self).outcome is Some,
            old(self).outcome is Some ==> *final(self) == *old(self),
            forall|results: Seq<int>| #[trigger]
                final(self).comes_to(results) == old(self).comes_to(results),
            r matches Some(a) ==> {
                &&& final(self).at < final(self).entries@.len()
                &&& final(self).entries@[final(self).at as int].1 > 0
                &&& a@ == seq![
                    old(self).fd,
                    final(self).entries@[final(self).at as int].0,
                    final(self).entries@[final(self).at as int].1,
                    0i64,
                    0i64,
                    0i64,
                ]
            },
    {
        if self.outcome.is_some() {
            return None;
        }
        let n: usize = self.entries.len();
        while self.at < n && self.entries[self.at].1 == 0
            invariant
                self.wf(),
                self.outcome is None,
                n == self.entries@.len(),
                self.entries == old(self).entries,
                self.total == old(self).total,
                self.fd == old(self).fd,
                old(self).outcome is None,
                forall|results: Seq<int>| #[trigger]
                    self.comes_to(results) == old(self).comes_to(results),
            ensures
                self.at == n || self.entries@[self.at as int].1 != 0,
            decreases n - self.at,
        {
            let ghost before = *self;
            self.at = self.at + 1;
            assert forall|results: Seq<int>| #[trigger]
                self.comes_to(results) == old(self).comes_to(results) by {
                assert(before.comes_to(results) == old(self).comes_to(results));
                assert(before.entries@.skip(before.at as int).drop_first() =~= self.entries@.skip(
                    self.at as int,
                ));
            }
        }
        if self.at == n {
            assert(self.entries@.skip(n as int) =~= Seq::empty());
            let ghost before = *self;
            self.outcome = Some(self.total);
            assert forall|results: Seq<int>| #[trigger]
                self.comes_to(results) == old(self).comes_to(results) by {
                assert(before.comes_to(results) == old(self).comes_to(results));
            }
            return None;
        }
        let (base, len): (i64, i64) = self.entries[self.at];
        let args: [i64; 6] = [self.fd, base, len, 0, 0, 0];
        assert(args@ =~= seq![self.fd, base, len, 0i64, 0i64, 0i64]);
        Some(args)
    }

    /// Take what the call for the current buffer returned.
    pub fn feed(&mut self, r: i64)
        requires
            old(self).wf(),
            old(self).outcome is None,
            old(self).at < old(self).entries@.len(),
            0 < old(self).entries@[old(self).at as int].1,
            r <= old(self).entries@[old(self).at as int].1,
        ensures
            final(self).wf(),
            final(self).entries == old(self).entries,
            final(self).fd == old(self).fd,
            forall|results: Seq<int>| #[trigger]
                final(self).comes_to(results) == old(self).comes_to(seq![r as int] + results),
    {
        let len: i64 = self.entries[self.at].1;
        if r < 0 {
            self.outcome = Some(
                if self.total == 0 {
                    r
                } else {
                    self.total
                },
            );
        } else {
            self.total = self.total + r;
            self.at = self.at + 1;
            if r < len {
                self.outcome = Some(self.total);
            }
        }
        proof {
            let v = old(self).entries@.skip(old(self).at as int);
            assert(v.drop_first() =~= old(self).entries@.skip(old(self).at + 1));
            assert forall|results: Seq<int>| #[trigger]
                self.comes_to(results) == old(self).comes_to(seq![r as int] + results) by {
                let all = seq![r as int] + results;
                assert(all.drop_first() =~= results);
                assert(all[0] == r);
            }
        }
    }
}

/// The transfer that `readv` and `writev` start.
pub open spec fn vectored_start(m: Seq<u8>, a: [i64; 6]) -> Result<Seq<(i64, i64)>, i64> {
    if !(0 <= a[2] <= usize::MAX) {
        Err((-EINVAL) as i64)
    } else if !in_bounds(m.len(), a[1] as int, a[2] * 8) {
        Err((-EFAULT) as i64)
    } else {
        Ok(iovecs(window(m, a[1] as int, a[2] * 8)))
    }
}

fn vectored(mem: &[u8], a: [i64; 6]) -> (r: Result<IovProgress, i64>)
    requires
        mem@.len() <= GUEST_LIMIT,
    ensures
        match r {
            Ok(p) => {
                &&& vectored_start(mem@, a) == Ok::<Seq<(i64, i64)>, i64>(p.entries@)
                &&& p.wf()
                &&& p.fd == a[0]
                &&& p.at == 0 && p.total == 0 && p.outcome is None
                &&& forall|results: Seq<int>| #[trigger]
                    p.comes_to(results) == transfer(p.entries@, results, 0)
            },
            Err(e) => vectored_start(mem@, a) == Err::<Seq<(i64, i64)>, i64>(e),
        },
{
    if to_index(a[2]).is_none() {
        return Err(-EINVAL);
    }
    if a[2] > 0x1000_0000_0000 {
        return Err(-EFAULT);
    }
    let b: Vec<u8> = match guest_slice(mem, a[1], a[2] * 8) {
        Ok(b) => b,
        Err(e) => {
            return Err(e);
        },
    };
    let entries: Vec<(i64, i64)> = parse_iovecs(b.as_slice());
    let p: IovProgress = IovProgress { fd: a[0], entries, at: 0, total: 0, outcome: None };
    assert(p.entries@.skip(0) =~= p.entries@);
    Ok(p)
}

/// `readv(fd, iov, iovcnt)`: hand the buffers to `read` one by one.
pub fn readv(mem: &[u8], a: [i64; 6]) -> (r: Result<IovProgress, i64>)
    requires
        mem@.len() <= GUEST_LIMIT,
    ensures
        match r {
            Ok(p) => {
                &&& vectored_start(mem@, a) == Ok::<Seq<(i64, i64)>, i64>(p.entries@)
                &&& p.wf()
                &&& p.fd == a[0]
                &&& p.at == 0 && p.total == 0 && p.outcome is None
                &&& forall|results: Seq<int>| #[trigger]
                    p.comes_to(results) == transfer(p.entries@, results, 0)
            },
            Err(e) => vectored_start(mem@, a) == Err::<Seq<(i64, i64)>, i64>(e),
        },
{
    vectored(mem, a)
}

/// `writev(fd, iov, iovcnt)`: hand the buffers to `write` one by one.
pub fn writev(mem: &[u8], a: [i64; 6]) -> (r: Result<IovProgress, i64>)
    requires
        mem@.len() <= GUEST_LIMIT,
    ensures
        match r {
            Ok(p) => {
                &&& vectored_start(mem@, a) == Ok::<Seq<(i64, i64)>, i64>(p.entries@)
                &&& p.wf()
                &&& p.fd == a[0]
                &&& p.at == 0 && p.total == 0 && p.outcome is None
                &&& forall|results: Seq<int>| #[trigger]
                    p.comes_to(results) == transfer(p.entries@, results, 0)
            },
            Err(e) => vectored_start(mem@, a) == Err::<Seq<(i64, i64)>, i64>(e),
        },
{
    vectored(mem, a)
}

/// What is left to do of an `lseek`.
#[derive(Clone, Copy, PartialEq, Eq, Structural, Debug)]
pub enum LseekStep {
    Done(i64),
    /// Seek to this distance from the start of the file; `lseek_done` finishes.
    Seek { file: u64, to: u64 },
    /// Tell the length of the file; `lseek_end` goes on.
    Length { file: u64 },
}

/// What `lseek` does. `SEEK_CUR` counts from the position of the descriptor. A
/// directory can only be rewound.
pub open spec fn lseek_after(f: FdModel, a: [i64; 6]) -> (LseekStep, FdModel) {
    match f.at(a[0] as int) {
        Some(Resource::File(n)) => {
            let p = f.files[n];
            if p.is_dir {
                if a[2] == SEEK_SET && a[1] == 0 {
                    (LseekStep::Done(0), f.with_file(n, FileModel { pos: 0, ..p }))
                } else {
                    (LseekStep::Done((-ESPIPE) as i64), f)
                }
            } else if a[2] == SEEK_SET {
                (
                    LseekStep::Seek {
                        file: n,
                        to: if a[1] < 0 {
                            0
                        } else {
                            a[1] as u64
                        },
                    },
                    f,
                )
            } else if a[2] == SEEK_CUR {
                if 0 <= p.pos + a[1] <= i64::MAX {
                    (LseekStep::Seek { file: n, to: (p.pos + a[1]) as u64 }, f)
                } else {
                    (LseekStep::Done((-EINVAL) as i64), f)
                }
            } else if a[2] == SEEK_END {
                (LseekStep::Length { file: n }, f)
            } else {
                (LseekStep::Done((-EINVAL) as i64), f)
            }
        },
        Some(_) => (LseekStep::Done((-ESPIPE) as i64), f),
        None => (LseekStep::Done((-EBADF) as i64), f),
    }
}

/// `lseek(fd, offset, whence)`.
pub fn lseek(fds: &mut FdTable, a: [i64; 6]) -> (r: LseekStep)
    requires
        old(fds)@.wf(),
    ensures
        r == lseek_after(old(fds)@, a).0,
        final(fds)@ == lseek_after(old(fds)@, a).1,
        final(fds)@.wf(),
{
    let offset: i64 = a[1];
    let whence: i64 = a[2];
    let n: u64 = match fds.lookup(a[0]) {
        Some(Resource::File(n)) => n,
        Some(_) => {
            return LseekStep::Done(-ESPIPE);
        },
        None => {
            return LseekStep::Done(-EBADF);
        },
    };
    if fds.file(n).is_dir {
        if whence == SEEK_SET && offset == 0 {
            let mut p: FilePos = fds.take_file(n);
            p.pos = 0;
            fds.put_file(n, p);
            return LseekStep::Done(0);
        }
        return LseekStep::Done(-ESPIPE);
    }
    if whence == SEEK_SET {
        let start: u64 = if offset < 0 {
            0
        } else {
            offset as u64
        };
        return LseekStep::Seek { file: n, to: start };
    }
    if whence == SEEK_CUR {
        let to: i128 = fds.file(n).pos as i128 + offset as i128;
        if to < 0 || to > i64::MAX as i128 {
            return LseekStep::Done(-EINVAL);
        }
        return LseekStep::Seek { file: n, to: to as u64 };
    }
    if whence == SEEK_END {
        return LseekStep::Length { file: n };
    }
    LseekStep::Done(-EINVAL)
}

/// The place that lies `offset` from the end of a file: not before its start.
pub open spec fn end_place(offset: int, length: Option<u64>) -> int {
    let n: int = match length {
        Some(n) => n as int,
        None => 0,
    };
    if n + offset < 0 {
        0
    } else {
        n + offset
    }
}

/// Where `SEEK_END` leads: `offset` from the end of the file, but not before its
/// start. Where the host cannot tell the length it counts as zero.
pub fn lseek_end(offset: i64, length: Option<u64>) -> (r: u64)
    requires
        length matches Some(n) ==> n <= i64::MAX && n + offset <= i64::MAX,
    ensures
        r == end_place(offset as int, length),
{
    let n: i64 = match length {
        Some(n) => n as i64,
        None => 0,
    };
    let to: i64 = n + offset;
    if to < 0 {
        0
    } else {
        to as u64
    }
}

/// The table after the position of the file was set to `to`.
pub open spec fn file_sought(f: FdModel, file: u64, to: u64) -> FdModel {
    f.with_file(file, FileModel { pos: to, ..f.files[file] })
}

/// What the end of seeking does.
pub open spec fn lseek_done_after(f: FdModel, file: u64, to: u64, moved: bool) -> (int, FdModel) {
    if moved {
        (to as int, file_sought(f, file, to))
    } else {
        (-EINVAL, f)
    }
}

/// Finish an `lseek` to the distance `to` from the start; `moved` tells whether the host
/// could seek there.
pub fn lseek_done(fds: &mut FdTable, file: u64, to: u64, moved: bool) -> (r: i64)
    requires
        old(fds)@.wf(),
        old(fds)@.files.contains_key(file),
        to <= i64::MAX,
    ensures
        final(fds)@.wf(),
        r == lseek_done_after(old(fds)@, file, to, moved).0,
        final(fds)@ == lseek_done_after(old(fds)@, file, to, moved).1,
{
    if !moved {
        return -EINVAL;
    }
    let mut file_pos: FilePos = fds.take_file(file);
    file_pos.pos = to;
    fds.put_file(file, file_pos);
    to as i64
}

/// The position of a descriptor is where its reads, writes and seeks have left it: after
/// `n` bytes were read or written, `lseek` by nothing asks for that place and leaves the
/// descriptor there, and the next read and write start there.
pub proof fn position_is_told(
    f: FdModel,
    m: Seq<u8>,
    file: u64,
    n: int,
    seek: [i64; 6],
    next: [i64; 6],
)
    requires
        f.wf(),
        f.at(seek[0] as int) == Some(Resource::File(file)),
        !f.files[file].is_dir,
        0 <= n,
        f.files[file].pos + n <= i64::MAX,
        seek[1] == 0,
        seek[2] == SEEK_CUR,
        next[0] == seek[0],
        next[2] > 0,
        in_bounds(m.len(), next[1] as int, next[2] as int),
    ensures
        ({
            let to = (f.files[file].pos + n) as u64;
            let g = file_moved(f, file, n);
            &&& lseek_after(g, seek) == (LseekStep::Seek { file, to }, g)
            &&& file_sought(g, file, to) == g
            &&& read_after(g, m, next).step == (ReadStep::File {
                file,
                pos: to,
                len: next[2] as usize,
            })
            &&& write_after(g, m, next).step == (WriteModel::File {
                file,
                pos: to,
                bytes: window(m, next[1] as int, next[2] as int),
            })
        }),
{
    let g = file_moved(f, file, n);
    assert(g.at(seek[0] as int) == Some(Resource::File(file)));
    assert(file_sought(g, file, g.files[file].pos).files =~= g.files);
}

/// What is left to do of an `fstat`.
#[derive(Clone, Copy, PartialEq, Eq, Structural, Debug)]
pub enum FstatStep {
    Done(i64),
    /// Report on the file; `fstat_done` finishes.
    Meta { file: u64 },
}

/// What `fstat` does: what is no file is told as a character device.
pub open spec fn fstat_after(f: FdModel, m: Seq<u8>, a: [i64; 6]) -> (FstatStep, Seq<u8>) {
    match f.at(a[0] as int) {
        None => (FstatStep::Done((-EBADF) as i64), m),
        Some(Resource::File(n)) => (FstatStep::Meta { file: n }, m),
        Some(_) => (
            FstatStep::Done(
                match bounds_answer(m.len(), a[1] as int, 120) {
                    Ok(_) => 0,
                    Err(e) => e,
                },
            ),
            written(m, a[1] as int, char_device().image()),
        ),
    }
}

/// What the end of `fstat` does with what the host knows of the file.
pub open spec fn fstat_told(m: Seq<u8>, ptr: int, meta: Option<FileMeta>) -> (int, Seq<u8>) {
    let s = match meta {
        Some(x) => stat_of(x),
        None => char_device(),
    };
    (
        match bounds_answer(m.len(), ptr, 120) {
            Ok(_) => 0,
            Err(e) => e as int,
        },
        written(m, ptr, s.image()),
    )
}

/// `fstat(fd, statbuf)`. Whatever is not a file looks like a character device.
pub fn fstat(fds: &FdTable, mem: &mut [u8], a: [i64; 6]) -> (r: FstatStep)
    ensures
        final(mem)@.len() == old(mem)@.len(),
        (r, final(mem)@) == fstat_after(fds@, old(mem)@, a),
{
    match fds.lookup(a[0]) {
        None => FstatStep::Done(-EBADF),
        Some(Resource::File(n)) => FstatStep::Meta { file: n },
        Some(_) => match synth_char().write_to_guest(mem, a[1]) {
            Ok(_) => FstatStep::Done(0),
            Err(e) => FstatStep::Done(e),
        },
    }
}

/// Finish an `fstat`. A file that the host cannot report on looks like a character
/// device.
pub fn fstat_done(mem: &mut [u8], statbuf_ptr: i64, meta: Option<FileMeta>) -> (r: i64)
    ensures
        final(mem)@.len() == old(mem)@.len(),
        (r as int, final(mem)@) == fstat_told(old(mem)@, statbuf_ptr as int, meta),
{
    let stat: Stat = match meta {
        Some(m) => Stat::from_metadata(&m),
        None => synth_char(),
    };
    match stat.write_to_guest(mem, statbuf_ptr) {
        Ok(_) => 0,
        Err(e) => e,
    }
}

/// What is left to do of a `getdents64`.
pub enum DirStep {
    Done(i64),
    /// List the directory at `path`; `getdents64_listed` finishes.
    List { file: u64, path: GuestPath },
}

/// The next page of a directory whose records are `all`, written to `ptr`.
pub open spec fn page_after(
    f: FdModel,
    m: Seq<u8>,
    n: u64,
    all: Seq<u8>,
    ptr: int,
    len: int,
) -> After {
    let p = f.files[n];
    let part = page(all, p.pos as nat, len as nat);
    After {
        ret: part.len() as int,
        fds: f.with_file(
            n,
            FileModel { pos: (p.pos + part.len()) as u64, dir_cache: Some(all), ..p },
        ),
        mem: splice(m, ptr, part),
    }
}

/// Why `getdents64` cannot list: a bad buffer, or a descriptor that names no
/// directory.
pub open spec fn getdents_refusal(f: FdModel, m: Seq<u8>, a: [i64; 6]) -> Option<int> {
    if !(0 <= a[0] <= u32::MAX) {
        Some(-EBADF)
    } else if !in_bounds(m.len(), a[1] as int, a[2] as int) {
        Some(-EFAULT)
    } else if a[2] == 0 {
        Some(-EINVAL)
    } else {
        match f.at(a[0] as int) {
            None => Some(-EBADF),
            Some(Resource::File(n)) => if !f.files[n].is_dir {
                Some(-ENOTDIR)
            } else if f.files[n].path is None {
                Some(-EBADF)
            } else {
                None
            },
            Some(_) => Some(-ENOTDIR),
        }
    }
}

fn give_page(
    fds: &mut FdTable,
    mem: &mut [u8],
    n: u64,
    all: Vec<u8>,
    ptr: i64,
    len: usize,
) -> (r: i64)
    requires
        old(fds)@.wf(),
        old(fds)@.files.contains_key(n),
        in_bounds(old(mem)@.len(), ptr as int, len as int),
        len <= i64::MAX,
    ensures
        r == page_after(old(fds)@, old(mem)@, n, all@, ptr as int, len as int).ret,
        final(fds)@ == page_after(old(fds)@, old(mem)@, n, all@, ptr as int, len as int).fds,
        final(mem)@ == page_after(old(fds)@, old(mem)@, n, all@, ptr as int, len as int).mem,
        final(mem)@.len() == old(mem)@.len(),
        final(fds)@.wf(),
{
    let mut p: FilePos = fds.take_file(n);
    let total: usize = all.len();
    let part: Vec<u8> = if p.pos >= total as u64 {
        Vec::new()
    } else {
        page_of(&all, p.pos as usize, len)
    };
    let got: usize = part.len();
    p.pos = p.pos + got as u64;
    p.dir_cache = Some(all);
    fds.put_file(n, p);
    let _ = guest_write(mem, ptr, part.as_slice());
    got as i64
}

pub enum DirModel {
    Done(int),
    List { file: u64, path: Seq<Seq<u8>> },
}

impl View for DirStep {
    type V = DirModel;

    open spec fn view(&self) -> DirModel {
        match self {
            DirStep::Done(r) => DirModel::Done(*r as int),
            DirStep::List { file, path } => DirModel::List { file: *file, path: path@ },
        }
    }
}

pub struct DirAfter {
    pub step: DirModel,
    pub fds: FdModel,
    pub mem: Seq<u8>,
}

/// What `getdents64` does.
pub open spec fn getdents_after(f: FdModel, m: Seq<u8>, a: [i64; 6]) -> DirAfter {
    match getdents_refusal(f, m, a) {
        Some(e) => DirAfter { step: DirModel::Done(e), fds: f, mem: m },
        None => {
            let n = f.at(a[0] as int)->Some_0->File_0;
            match f.files[n].dir_cache {
                Some(all) => {
                    let after = page_after(f, m, n, all, a[1] as int, a[2] as int);
                    DirAfter { step: DirModel::Done(after.ret), fds: after.fds, mem: after.mem }
                },
                None => DirAfter {
                    step: DirModel::List { file: n, path: f.files[n].path->Some_0 },
                    fds: f,
                    mem: m,
                },
            }
        },
    }
}

/// What the end of `getdents64` does with the records of the directory.
pub open spec fn getdents_listed_after(
    f: FdModel,
    m: Seq<u8>,
    a: [i64; 6],
    file: u64,
    records: Result<Seq<u8>, i64>,
) -> After {
    match records {
        Err(e) => After { ret: e as int, fds: f, mem: m },
        Ok(all) => page_after(f, m, file, all, a[1] as int, a[2] as int),
    }
}

/// `getdents64(fd, buf, len)`: the next bytes of the directory's records. The
/// records are listed once and kept.
pub fn getdents64(fds: &mut FdTable, mem: &mut [u8], a: [i64; 6]) -> (r: DirStep)
    requires
        old(fds)@.wf(),
    ensures
        final(mem)@.len() == old(mem)@.len(),
        final(fds)@.wf(),
        (DirAfter { step: r@, fds: final(fds)@, mem: final(mem)@ }) == getdents_after(
            old(fds)@,
            old(mem)@,
            a,
        ),
{
    if fd_arg(a[0]).is_none() {
        return DirStep::Done(-EBADF);
    }
    match check_range(mem.len(), a[1], a[2]) {
        Ok(_) => {},
        Err(e) => {
            return DirStep::Done(e);
        },
    }
    if a[2] == 0 {
        return DirStep::Done(-EINVAL);
    }
    let len: usize = a[2] as usize;
    let n: u64 = match fds.lookup(a[0]) {
        Some(Resource::File(n)) => n,
        Some(_) => {
            return DirStep::Done(-ENOTDIR);
        },
        None => {
            return DirStep::Done(-EBADF);
        },
    };
    let p: &FilePos = fds.file(n);
    if !p.is_dir {
        return DirStep::Done(-ENOTDIR);
    }
    let path: GuestPath = match &p.path {
        Some(path) => path.copy(),
        None => {
            return DirStep::Done(-EBADF);
        },
    };
    let all: Vec<u8> = match &p.dir_cache {
        Some(all) => crate::path::copy_bytes(all),
        None => {
            return DirStep::List { file: n, path };
        },
    };
    DirStep::Done(give_page(fds, mem, n, all, a[1], len))
}

/// Finish a `getdents64` with the records of the directory, or with why they could
/// not be listed.
pub fn getdents64_listed(
    fds: &mut FdTable,
    mem: &mut [u8],
    a: [i64; 6],
    file: u64,
    records: Result<Vec<u8>, i64>,
) -> (r: i64)
    requires
        old(fds)@.wf(),
        old(fds)@.files.contains_key(file),
        in_bounds(old(mem)@.len(), a[1] as int, a[2] as int),
    ensures
        final(mem)@.len() == old(mem)@.len(),
        final(fds)@.wf(),
        (After { ret: r as int, fds: final(fds)@, mem: final(mem)@ }) == getdents_listed_after(
            old(fds)@,
            old(mem)@,
            a,
            file,
            (match records {
                Ok(all) => Ok(all@),
                Err(e) => Err(e),
            }),
        ),
{
    let all: Vec<u8> = match records {
        Ok(all) => all,
        Err(e) => {
            return e;
        },
    };
    assert(mem.len() <= usize::MAX);
    give_page(fds, mem, file, all, a[1], a[2] as usize)
}

/// What a `getdents64` comes to, with the records `all` where it has to list the
/// directory.
pub open spec fn getdents_call(f: FdModel, m: Seq<u8>, a: [i64; 6], all: Seq<u8>) -> After {
    let first = getdents_after(f, m, a);
    match first.step {
        DirModel::Done(r) => After { ret: r, fds: first.fds, mem: first.mem },
        DirModel::List { file, .. } => getdents_listed_after(
            first.fds,
            first.mem,
            a,
            file,
            Ok(all),
        ),
    }
}

/// Whether `fd` names a directory with the records `all`, of which `pos` bytes have been
/// given. A directory that was just opened has not been listed yet.
pub open spec fn reads_directory(f: FdModel, fd: int, all: Seq<u8>, pos: nat) -> bool {
    &&& f.at(fd) matches Some(Resource::File(n))
    &&& f.files[n].is_dir
    &&& f.files[n].path is Some
    &&& f.files[n].pos == pos
    &&& f.files[n].dir_cache is None || f.files[n].dir_cache == Some(all)
}

/// A `getdents64` on a directory gives the bytes that come next, as many as its buffer
/// holds, and none only at the end.
pub proof fn directory_goes_on(f: FdModel, m: Seq<u8>, a: [i64; 6], all: Seq<u8>, pos: nat)
    requires
        reads_directory(f, a[0] as int, all, pos),
        pos <= all.len() <= u64::MAX,
        a[2] > 0,
        in_bounds(m.len(), a[1] as int, a[2] as int),
    ensures
        ({
            let r = getdents_call(f, m, a, all);
            let part = page(all, pos, a[2] as nat);
            &&& r.ret == part.len()
            &&& 0 <= r.ret <= a[2]
            &&& r.ret == 0 <==> pos == all.len()
            &&& window(r.mem, a[1] as int, r.ret) == part
            &&& part == all.subrange(pos as int, pos + r.ret)
            &&& reads_directory(r.fds, a[0] as int, all, (pos + r.ret) as nat)
            &&& pos + r.ret <= all.len()
        }),
{
    let n = f.at(a[0] as int)->Some_0->File_0;
    let part = page(all, pos, a[2] as nat);
    let r = getdents_call(f, m, a, all);
    assert(part =~= all.subrange(pos as int, (pos + part.len()) as int));
    splice_reads_back(m, a[1] as int, part);
    assert(r.fds.at(a[0] as int) == f.at(a[0] as int));
}

/// A `getdents64` and the memory that it finds.
pub struct DirCall {
    pub mem: Seq<u8>,
    pub args: [i64; 6],
}

/// The table after these calls of `getdents64`, one after the other.
pub open spec fn calls_table(f: FdModel, calls: Seq<DirCall>, all: Seq<u8>) -> FdModel
    decreases calls.len(),
{
    if calls.len() == 0 {
        f
    } else {
        let c = calls.last();
        getdents_call(calls_table(f, calls.drop_last(), all), c.mem, c.args, all).fds
    }
}

/// What the last of these calls of `getdents64` comes to.
pub open spec fn last_call(f: FdModel, calls: Seq<DirCall>, all: Seq<u8>) -> After {
    let c = calls.last();
    getdents_call(calls_table(f, calls.drop_last(), all), c.mem, c.args, all)
}

/// The bytes that these calls of `getdents64` give, one after the other.
pub open spec fn calls_bytes(f: FdModel, calls: Seq<DirCall>, all: Seq<u8>) -> Seq<u8>
    decreases calls.len(),
{
    if calls.len() == 0 {
        Seq::empty()
    } else {
        let r = last_call(f, calls, all);
        calls_bytes(f, calls.drop_last(), all) + window(
            r.mem,
            calls.last().args[1] as int,
            r.ret,
        )
    }
}

/// Whether each of the calls is on `fd`, with room for a byte inside its memory.
pub open spec fn calls_on(calls: Seq<DirCall>, fd: int) -> bool {
    forall|i: int|
        0 <= i < calls.len() ==> (#[trigger] calls[i]).args[0] == fd && calls[i].args[2] > 0
            && in_bounds(
            calls[i].mem.len(),
            calls[i].args[1] as int,
            calls[i].args[2] as int,
        )
}

/// Calls of `getdents64` from the start of a directory give its records from the front,
/// nothing twice and nothing left out. Each gives at least a byte and no more than its
/// buffer holds, until all are given; once one gives nothing, the bytes given are the
/// whole listing, and every further call gives nothing.
#[verifier::rlimit(80)]
#[verifier::spinoff_prover]
pub proof fn directory_is_given_whole(f: FdModel, fd: int, calls: Seq<DirCall>, all: Seq<u8>)
    requires
        reads_directory(f, fd, all, 0),
        all.len() <= u64::MAX,
        calls_on(calls, fd),
    ensures
        ({
            let given = calls_bytes(f, calls, all);
            &&& given.len() <= all.len()
            &&& given == all.take(given.len() as int)
            &&& reads_directory(calls_table(f, calls, all), fd, all, given.len())
            &&& calls.len() > 0 ==> {
                let r = last_call(f, calls, all);
                let before = calls_bytes(f, calls.drop_last(), all);
                &&& 0 <= r.ret <= calls.last().args[2]
                &&& r.ret == 0 <==> before == all
                &&& r.ret == 0 ==> given == all
            }
        }),
    decreases calls.len(),
{
    if calls.len() == 0 {
        assert(all.take(0) =~= Seq::<u8>::empty());
    } else {
        let rest = calls.drop_last();
        let c = calls[calls.len() - 1];
        assert(calls.last() == c);
        assert forall|i: int| 0 <= i < rest.len() implies (#[trigger] rest[i]).args[0] == fd
            && rest[i].args[2] > 0 && in_bounds(
            rest[i].mem.len(),
            rest[i].args[1] as int,
            rest[i].args[2] as int,
        ) by {
            assert(rest[i] == calls[i]);
        }
        directory_is_given_whole(f, fd, rest, all);
        let before = calls_bytes(f, rest, all);
        let g = calls_table(f, rest, all);
        directory_goes_on(g, c.mem, c.args, all, before.len());
        let r = last_call(f, calls, all);
        let given = calls_bytes(f, calls, all);
        assert(given == before + all.subrange(before.len() as int, before.len() + r.ret));
        assert(given =~= all.take(given.len() as int));
        assert(all.take(all.len() as int) =~= all);
    }
}

/// Rewinding a directory gives its records from the start again.
pub proof fn rewound_directory_starts_again(
    f: FdModel,
    all: Seq<u8>,
    pos: nat,
    a: [i64; 6],
)
    requires
        reads_directory(f, a[0] as int, all, pos),
        a[1] == 0,
        a[2] == SEEK_SET,
    ensures
        lseek_after(f, a).0 == LseekStep::Done(0),
        reads_directory(lseek_after(f, a).1, a[0] as int, all, 0),
{
    assert(lseek_after(f, a).1.at(a[0] as int) == f.at(a[0] as int));
}

/// What `getcwd` writes: the text of the working directory and a zero byte.
pub open spec fn cwd_text(cwd: Seq<Seq<u8>>) -> Seq<u8> {
    path_text(cwd).push(0)
}

/// What `getcwd` does: the path and a zero byte go to the buffer, and the answer is the
/// length of the path.
pub open spec fn getcwd_after(cwd: Seq<Seq<u8>>, m: Seq<u8>, a: [i64; 6]) -> (int, Seq<u8>) {
    let t = cwd_text(cwd);
    if !(0 <= a[1] <= usize::MAX) {
        (-EFAULT, m)
    } else if a[1] < t.len() {
        (-ERANGE, m)
    } else {
        (
            match bounds_answer(m.len(), a[0] as int, t.len() as int) {
                Ok(_) => path_text(cwd).len() as int,
                Err(e) => e as int,
            },
            written(m, a[0] as int, t),
        )
    }
}

/// `getcwd(buf, size)`: the result is the length of the text, without the zero
/// byte. `-ERANGE` where `size` is too small for both.
pub fn getcwd(cwd: &GuestPath, mem: &mut [u8], a: [i64; 6]) -> (r: i64)
    requires
        path_text(cwd@).len() < i64::MAX,
    ensures
        final(mem)@.len() == old(mem)@.len(),
        (r as int, final(mem)@) == getcwd_after(cwd@, old(mem)@, a),
{
    let buf_len: usize = match to_index(a[1]) {
        Some(n) => n,
        None => {
            return -EFAULT;
        },
    };
    let mut text: Vec<u8> = cwd.text();
    let len: usize = text.len();
    if buf_len <= len {
        return -ERANGE;
    }
    text.push(0);
    match guest_write(mem, a[0], text.as_slice()) {
        Ok(_) => len as i64,
        Err(e) => e,
    }
}

/// A duplicate names the same object as the descriptor that was duplicated, which
/// still names it too: what is done through one is seen through the other.
pub proof fn duplicates_share_the_object(
    f: FdModel,
    oldfd: u32,
    target: Option<u32>,
    cloexec: bool,
)
    requires
        f.wf(),
        target != Some(oldfd),
    ensures
        ({
            let (ret, g) = dup_after(f, oldfd, target, cloexec);
            ret >= 0 ==> g.at(ret) == f.at(oldfd as int) && g.at(oldfd as int) == f.at(
                oldfd as int,
            )
        }),
{
    a_number_is_free(f, 3);
}

/// Duplicating a descriptor onto itself changes nothing.
pub proof fn dup2_onto_itself_changes_nothing(f: FdModel, a: [i64; 6])
    requires
        a[0] == a[1],
    ensures
        dup2_after(f, a).1 == f,
        f.at(a[0] as int) is Some ==> dup2_after(f, a).0 == a[0],
{
}

/// How what `r` names can be used.
pub open spec fn access_mode(r: Resource) -> i32 {
    match r {
        Resource::Stdin(_) => O_RDONLY,
        Resource::PipeRead(_) => O_RDONLY,
        Resource::Stdout(_) => O_WRONLY,
        Resource::Stderr(_) => O_WRONLY,
        Resource::PipeWrite(_) => O_WRONLY,
        _ => O_RDWR,
    }
}

/// The non-blocking flag that `F_SETFL` sets is what `F_GETFL` tells, on everything that
/// has one.
pub proof fn nonblock_is_told_as_set(f: FdModel, r: Resource, on: bool)
    requires
        !(r is File),
        !(r is Epoll),
        !(r is EventFd),
    ensures
        status_flags(with_nonblock(f, r, on), r) == flags_with(access_mode(r), on),
{
    let g = with_nonblock(f, r, on);
    match r {
        Resource::Stdin(n) => assert(g.pipes[n].rd_nonblock == on),
        Resource::PipeRead(n) => assert(g.pipes[n].rd_nonblock == on),
        Resource::Stdout(n) => assert(g.pipes[n].wr_nonblock == on),
        Resource::Stderr(n) => assert(g.pipes[n].wr_nonblock == on),
        Resource::PipeWrite(n) => assert(g.pipes[n].wr_nonblock == on),
        Resource::Socket(n) => assert(g.sockets[n].nonblock == on),
        _ => {},
    }
}

/// The mark that `F_SETFD` sets is what `F_GETFD` tells, and no other descriptor gets it.
pub proof fn cloexec_is_told_as_set(f: FdModel, fd: u32, on: bool, other: u32)
    requires
        f.slots.contains_key(fd),
        other != fd,
    ensures
        f.with_cloexec(fd, on).slots[fd].cloexec == on,
        f.with_cloexec(fd, on).slots[fd].res == f.slots[fd].res,
        f.with_cloexec(fd, on).slots.contains_key(other) == f.slots.contains_key(other),
        f.slots.contains_key(other) ==> f.with_cloexec(fd, on).slots[other] == f.slots[other],
{
}

/// A read that is refused leaves the memory and the descriptors as they were.
pub proof fn refused_read_changes_nothing(f: FdModel, m: Seq<u8>, a: [i64; 6])
    ensures
        read_after(f, m, a).step matches ReadStep::Done(r) ==> r < 0 ==> read_after(f, m, a).fds
            == f && read_after(f, m, a).mem == m,
{
}

} // verus!
