//! System calls on paths.
//!
//! Each call works out which host path is meant and what the host is to do with it,
//! or fails. The host's reply becomes the call's result.

use vstd::prelude::*;
use crate::bytes::int64;
use crate::bytes::le_len;
use crate::bytes::read_le;
use crate::bytes::to_int64;
use crate::errno::EACCES;
use crate::errno::EBADF;
use crate::errno::EEXIST;
use crate::errno::EFAULT;
use crate::errno::EINVAL;
use crate::errno::ENAMETOOLONG;
use crate::errno::ENOENT;
use crate::errno::ENOTDIR;
use crate::fd::fd_arg;
use crate::fd::lowest_free;
use crate::fd::FdModel;
use crate::fd::FdTable;
use crate::fd::FileModel;
use crate::fd::FilePos;
use crate::fd::Resource;
use crate::fd::AT_FDCWD;
use crate::host::epoch;
use crate::host::FileMeta;
use crate::host::HostTime;
use crate::host::IoErrorKind;
use crate::mem::bounds_answer;
use crate::mem::check_range;
use crate::mem::guest_slice;
use crate::mem::guest_str;
use crate::mem::guest_write;
use crate::mem::in_bounds;
use crate::mem::splice;
use crate::mem::to_index;
use crate::mem::window;
use crate::mem::word_at;
use crate::mem::written;
use crate::path::all_names;
use crate::path::GuestPath;
use crate::sys::file::char_device;
use crate::sys::file::file_errno;
use crate::sys::file::io_to_errno;
use crate::sys::file::statx_of;
use crate::sys::file::synth_char;
use crate::sys::file::Statx;
use crate::sys::file::AT_EMPTY_PATH;
use crate::sys::file::AT_NO_AUTOMOUNT;
use crate::sys::file::AT_REMOVEDIR;
use crate::sys::file::AT_SYMLINK_NOFOLLOW;
use crate::sys::file::F_OK;
use crate::sys::file::PATH_MAX;
use crate::sys::file::RENAME_EXCHANGE;
use crate::sys::file::RENAME_NOREPLACE;
use crate::sys::file::RENAME_WHITEOUT;
use crate::sys::file::R_OK;
use crate::sys::file::W_OK;
use crate::sys::file::X_OK;
use crate::sys::path::inside;
use crate::sys::path::kept_inside;
use crate::sys::path::named;
use crate::sys::path::named_path;
use crate::sys::path::path_arg;
use crate::sys::path::resolve;
use crate::sys::path::resolve_at;
use crate::vfs::open_options;
use crate::vfs::path_result;
use crate::vfs::stat_of;
use crate::vfs::vfs_errno;
use crate::vfs::OpenOptions;
use crate::vfs::Stat;
use crate::vfs::Vfs;
use crate::vfs::VfsResult;

verus! {

broadcast use le_len;

/// The result of a call whose host part gives no value.
pub open spec fn replied(reply: Result<(), IoErrorKind>) -> int {
    match reply {
        Ok(_) => 0,
        Err(e) => -file_errno(e),
    }
}

/// Finish a call whose host part gives no value: zero, or the negated error number.
pub fn fs_reply(reply: Result<(), IoErrorKind>) -> (r: i64)
    ensures
        r == replied(reply),
        (r == 0) == (reply is Ok),
{
    match reply {
        Ok(_) => 0,
        Err(e) => -io_to_errno(e),
    }
}

/// A file to open.
pub struct OpenRequest {
    pub path: GuestPath,
    pub options: OpenOptions,
}

/// What `openat` asks of the host.
pub open spec fn open_request(
    f: FdModel,
    vfs: Vfs,
    m: Seq<u8>,
    a: [i64; 6],
) -> Result<(Seq<Seq<u8>>, OpenOptions), i64> {
    match path_arg(m, a[1]) {
        None => Err((-EFAULT) as i64),
        Some(p) => match resolve_at(f, vfs.root@, vfs.cwd@, a[0], p) {
            Err(e) => Err(e),
            Ok(abs) => match open_options(a[2] as i32) {
                Err(e) => Err(e),
                Ok(o) => Ok((abs, o)),
            },
        },
    }
}

/// `openat(dirfd, path, flags, mode)`: what the host is to open. The mode is not
/// used.
pub fn openat(fds: &FdTable, vfs: &Vfs, mem: &[u8], a: [i64; 6]) -> (r: Result<OpenRequest, i64>)
    requires
        fds@.wf(),
    ensures
        match r {
            Ok(q) => open_request(fds@, *vfs, mem@, a) == Ok::<
                (Seq<Seq<u8>>, OpenOptions),
                i64,
            >((q.path@, q.options)),
            Err(e) => open_request(fds@, *vfs, mem@, a) == Err::<
                (Seq<Seq<u8>>, OpenOptions),
                i64,
            >(e),
        },
        vfs.wf() ==> (r matches Ok(q) ==> inside(*vfs, q.path@)),
{
    let path: Vec<u8> = match guest_str(mem, a[1], PATH_MAX) {
        Ok(s) => s,
        Err(e) => {
            return Err(e);
        },
    };
    let abs: GuestPath = match resolve(fds, vfs, a[0], path.as_slice()) {
        Ok(p) => p,
        Err(e) => {
            return Err(e);
        },
    };
    match vfs.open(a[2] as i32) {
        Ok(options) => Ok(OpenRequest { path: abs, options }),
        Err(e) => Err(e),
    }
}

/// The table with the file at `path` open in it.
pub open spec fn file_opened(f: FdModel, path: Seq<Seq<u8>>, is_dir: bool) -> FdModel {
    let n = f.next_id;
    f.with_file(n, FileModel { pos: 0, path: Some(path), is_dir, dir_cache: None }).numbered().bind(
        lowest_free(f.slots, 3),
        Resource::File(n),
    )
}

/// What the end of opening does with the host's answer: whether what was opened is a
/// directory, or why nothing was.
pub open spec fn open_done_after(
    f: FdModel,
    path: Seq<Seq<u8>>,
    options: OpenOptions,
    opened: Result<bool, IoErrorKind>,
    is_dir: bool,
) -> (int, FdModel) {
    match opened {
        Err(e) => (vfs_errno(e) as int, f),
        Ok(dir) => if options.directory && !dir {
            (-ENOTDIR, f)
        } else {
            (lowest_free(f.slots, 3) as int, file_opened(f, path, is_dir))
        },
    }
}

/// Finish an `openat`. `opened` tells, of the open file, whether it is a directory,
/// or why the host could not open it; `is_dir` tells whether its path leads to a
/// directory.
pub fn openat_done(
    fds: &mut FdTable,
    vfs: &Vfs,
    request: OpenRequest,
    opened: Result<bool, IoErrorKind>,
    is_dir: bool,
) -> (r: i64)
    requires
        old(fds)@.wf(),
        old(fds)@.room(1),
        all_names(request.path@),
    ensures
        final(fds)@.wf(),
        r == open_done_after(old(fds)@, request.path@, request.options, opened, is_dir).0,
        final(fds)@ == open_done_after(
            old(fds)@,
            request.path@,
            request.options,
            opened,
            is_dir,
        ).1,
{
    match vfs.opened(request.options, opened) {
        Err(e) => e,
        Ok(_) => {
            let mut p: FilePos = FilePos::with_path(request.path);
            p.is_dir = is_dir;
            let n: u64 = fds.add_file(p);
            let fd: u32 = fds.insert(Resource::File(n));
            fd as i64
        },
    }
}

/// What `open` asks of the host.
pub open spec fn open_call(f: FdModel, vfs: Vfs, m: Seq<u8>, a: [i64; 6]) -> Result<
    (Seq<Seq<u8>>, OpenOptions),
    i64,
> {
    open_request(f, vfs, m, [AT_FDCWD, a[0], a[1], a[2], 0, 0])
}

/// `open(path, flags, mode)`: `openat` from the working directory.
pub fn open(fds: &FdTable, vfs: &Vfs, mem: &[u8], a: [i64; 6]) -> (r: Result<OpenRequest, i64>)
    requires
        fds@.wf(),
    ensures
        match r {
            Ok(q) => open_call(fds@, *vfs, mem@, a) == Ok::<(Seq<Seq<u8>>, OpenOptions), i64>(
                (q.path@, q.options),
            ),
            Err(e) => open_call(fds@, *vfs, mem@, a) == Err::<(Seq<Seq<u8>>, OpenOptions), i64>(e),
        },
        vfs.wf() ==> (r matches Ok(q) ==> inside(*vfs, q.path@)),
{
    openat(fds, vfs, mem, [AT_FDCWD, a[0], a[1], a[2], 0, 0])
}

/// What is left to do of a `newfstatat`.
pub enum StatStep {
    Done(i64),
    /// `fstat` the descriptor itself.
    Descriptor,
    /// Report on the path, not following a link; `newfstatat_done` finishes.
    Path(GuestPath),
}

pub enum StatModel {
    Done(int),
    Descriptor,
    Path(Seq<Seq<u8>>),
}

impl View for StatStep {
    type V = StatModel;

    open spec fn view(&self) -> StatModel {
        match self {
            StatStep::Done(r) => StatModel::Done(*r as int),
            StatStep::Descriptor => StatModel::Descriptor,
            StatStep::Path(p) => StatModel::Path(p@),
        }
    }
}

/// What `newfstatat` comes to. An empty path means the descriptor itself, if the
/// flags say so.
pub open spec fn newfstatat_step(f: FdModel, vfs: Vfs, m: Seq<u8>, a: [i64; 6]) -> StatModel {
    match path_arg(m, a[1]) {
        None => StatModel::Done(-EFAULT),
        Some(p) => if p.len() == 0 {
            if (a[3] as i32) & AT_EMPTY_PATH != 0 {
                StatModel::Descriptor
            } else {
                StatModel::Done(-ENOENT)
            }
        } else {
            match resolve_at(f, vfs.root@, vfs.cwd@, a[0], p) {
                Ok(abs) => StatModel::Path(abs),
                Err(e) => StatModel::Done(e as int),
            }
        },
    }
}

/// `newfstatat(dirfd, path, statbuf, flags)`.
pub fn newfstatat(fds: &FdTable, vfs: &Vfs, mem: &[u8], a: [i64; 6]) -> (r: StatStep)
    requires
        fds@.wf(),
    ensures
        r@ == newfstatat_step(fds@, *vfs, mem@, a),
{
    let flags: i32 = a[3] as i32;
    let path: Vec<u8> = match guest_str(mem, a[1], PATH_MAX) {
        Ok(s) => s,
        Err(e) => {
            return StatStep::Done(e);
        },
    };
    if flags & AT_EMPTY_PATH != 0 && path.len() == 0 {
        return StatStep::Descriptor;
    }
    if path.len() == 0 {
        return StatStep::Done(-ENOENT);
    }
    match resolve(fds, vfs, a[0], path.as_slice()) {
        Ok(p) => StatStep::Path(p),
        Err(e) => StatStep::Done(e),
    }
}

/// What the end of `newfstatat` does with what the host knows of the path.
pub open spec fn stat_told(m: Seq<u8>, ptr: int, meta: Result<FileMeta, IoErrorKind>) -> (
    int,
    Seq<u8>,
) {
    match meta {
        Err(e) => (vfs_errno(e) as int, m),
        Ok(x) => (
            match bounds_answer(m.len(), ptr, 120) {
                Ok(_) => 0,
                Err(e) => e as int,
            },
            written(m, ptr, stat_of(x).image()),
        ),
    }
}

/// Finish a `newfstatat` with the host's report.
pub fn newfstatat_done(
    vfs: &Vfs,
    mem: &mut [u8],
    statbuf_ptr: i64,
    meta: Result<FileMeta, IoErrorKind>,
) -> (r: i64)
    ensures
        final(mem)@.len() == old(mem)@.len(),
        (r as int, final(mem)@) == stat_told(old(mem)@, statbuf_ptr as int, meta),
{
    let stat: Stat = match vfs.stat(meta) {
        Ok(s) => s,
        Err(e) => {
            return e;
        },
    };
    match stat.write_to_guest(mem, statbuf_ptr) {
        Ok(_) => 0,
        Err(e) => e,
    }
}

/// What `stat` comes to.
pub open spec fn stat_call(f: FdModel, vfs: Vfs, m: Seq<u8>, a: [i64; 6]) -> StatModel {
    newfstatat_step(f, vfs, m, [AT_FDCWD, a[0], a[1], 0, 0, 0])
}

/// `stat(path, statbuf)`: `newfstatat` from the working directory, without flags.
pub fn stat(fds: &FdTable, vfs: &Vfs, mem: &[u8], a: [i64; 6]) -> (r: StatStep)
    requires
        fds@.wf(),
    ensures
        r@ == stat_call(fds@, *vfs, mem@, a),
{
    newfstatat(fds, vfs, mem, [AT_FDCWD, a[0], a[1], 0, 0, 0])
}

/// What `lstat` comes to.
pub open spec fn lstat_call(f: FdModel, vfs: Vfs, m: Seq<u8>, a: [i64; 6]) -> StatModel {
    newfstatat_step(f, vfs, m, [AT_FDCWD, a[0], a[1], 0x100, 0, 0])
}

/// `lstat(path, statbuf)`: `newfstatat` from the working directory, on a link itself.
pub fn lstat(fds: &FdTable, vfs: &Vfs, mem: &[u8], a: [i64; 6]) -> (r: StatStep)
    requires
        fds@.wf(),
    ensures
        r@ == lstat_call(fds@, *vfs, mem@, a),
{
    newfstatat(fds, vfs, mem, [AT_FDCWD, a[0], a[1], 0x100, 0, 0])
}

/// What is left to do of a `statx`.
pub enum StatxStep {
    Done(i64),
    /// Report on the file; `statx_of_file` finishes.
    File(u64),
    /// Report on the path, not following a link; `statx_of_path` finishes.
    Path(GuestPath),
}

pub enum StatxModel {
    Done(int),
    File(u64),
    Path(Seq<Seq<u8>>),
}

impl View for StatxStep {
    type V = StatxModel;

    open spec fn view(&self) -> StatxModel {
        match self {
            StatxStep::Done(r) => StatxModel::Done(*r as int),
            StatxStep::File(n) => StatxModel::File(*n),
            StatxStep::Path(p) => StatxModel::Path(p@),
        }
    }
}

/// The flags that `statx` knows.
pub open spec fn statx_flags() -> i32 {
    AT_EMPTY_PATH | AT_NO_AUTOMOUNT | AT_SYMLINK_NOFOLLOW
}

/// What `statx` comes to, and what it leaves in the memory. An empty path means the
/// descriptor itself, if the flags say so.
pub open spec fn statx_step(f: FdModel, vfs: Vfs, m: Seq<u8>, a: [i64; 6]) -> (
    StatxModel,
    Seq<u8>,
) {
    let flags = a[2] as i32;
    if flags & !statx_flags() != 0 {
        (StatxModel::Done(-EINVAL), m)
    } else if !in_bounds(m.len(), a[4] as int, 256) {
        (StatxModel::Done(-EFAULT), m)
    } else {
        match path_arg(m, a[1]) {
            None => (StatxModel::Done(-EFAULT), m),
            Some(p) => if p.len() > 0 {
                match resolve_at(f, vfs.root@, vfs.cwd@, a[0], p) {
                    Ok(abs) => (StatxModel::Path(abs), m),
                    Err(e) => (StatxModel::Done(e as int), m),
                }
            } else if flags & AT_EMPTY_PATH == 0 {
                (StatxModel::Done(-ENOENT), m)
            } else {
                match f.at(a[0] as int) {
                    None => (StatxModel::Done(-EBADF), m),
                    Some(Resource::File(n)) => (StatxModel::File(n), m),
                    Some(_) => (
                        StatxModel::Done(0),
                        splice(m, a[4] as int, statx_of(char_device()).image()),
                    ),
                }
            },
        }
    }
}

/// Write the attributes `s` as a `struct statx`.
fn put_statx(mem: &mut [u8], ptr: i64, s: Stat) -> (r: i64)
    ensures
        final(mem)@.len() == old(mem)@.len(),
        r == (match bounds_answer(old(mem)@.len(), ptr as int, 256) {
            Ok(_) => 0,
            Err(e) => e,
        }),
        final(mem)@ == written(old(mem)@, ptr as int, statx_of(s).image()),
{
    let b: [u8; 256] = Statx::from_stat(&s).encode();
    match guest_write(mem, ptr, &b) {
        Ok(_) => 0,
        Err(e) => e,
    }
}

proof fn statx_image_len(s: Statx)
    ensures
        s.image().len() == 256,
{
}

/// `statx(dirfd, path, flags, mask, buf)`. The mask is not used: the same fields are
/// always filled.
pub fn statx(fds: &FdTable, vfs: &Vfs, mem: &mut [u8], a: [i64; 6]) -> (r: StatxStep)
    requires
        fds@.wf(),
    ensures
        r@ == statx_step(fds@, *vfs, old(mem)@, a).0,
        final(mem)@ == statx_step(fds@, *vfs, old(mem)@, a).1,
        final(mem)@.len() == old(mem)@.len(),
{
    let flags: i32 = a[2] as i32;
    if flags & !(AT_EMPTY_PATH | AT_NO_AUTOMOUNT | AT_SYMLINK_NOFOLLOW) != 0 {
        return StatxStep::Done(-EINVAL);
    }
    match check_range(mem.len(), a[4], 256) {
        Ok(_) => {},
        Err(e) => {
            return StatxStep::Done(e);
        },
    }
    let path: Vec<u8> = match guest_str(mem, a[1], PATH_MAX) {
        Ok(s) => s,
        Err(e) => {
            return StatxStep::Done(e);
        },
    };
    if flags & AT_EMPTY_PATH != 0 && path.len() == 0 {
        return match fds.lookup(a[0]) {
            None => StatxStep::Done(-EBADF),
            Some(Resource::File(n)) => StatxStep::File(n),
            Some(_) => {
                proof {
                    statx_image_len(statx_of(char_device()));
                }
                StatxStep::Done(put_statx(mem, a[4], synth_char()))
            },
        };
    }
    if path.len() == 0 {
        return StatxStep::Done(-ENOENT);
    }
    match resolve(fds, vfs, a[0], path.as_slice()) {
        Ok(p) => StatxStep::Path(p),
        Err(e) => StatxStep::Done(e),
    }
}

/// What the end of `statx` does with what the host knows of the file.
pub open spec fn statx_told(m: Seq<u8>, ptr: int, meta: FileMeta) -> (int, Seq<u8>) {
    (
        match bounds_answer(m.len(), ptr, 256) {
            Ok(_) => 0,
            Err(e) => e as int,
        },
        written(m, ptr, statx_of(stat_of(meta)).image()),
    )
}

/// What the end of `statx` of an open file does.
pub open spec fn statx_of_file_after(m: Seq<u8>, ptr: int, meta: Option<FileMeta>) -> (
    int,
    Seq<u8>,
) {
    match meta {
        None => (-EACCES as int, m),
        Some(x) => statx_told(m, ptr, x),
    }
}

/// Finish a `statx` of an open file with the host's report.
pub fn statx_of_file(mem: &mut [u8], buf_ptr: i64, meta: Option<FileMeta>) -> (r: i64)
    ensures
        (r as int, final(mem)@) == statx_of_file_after(old(mem)@, buf_ptr as int, meta),
        final(mem)@.len() == old(mem)@.len(),
{
    match meta {
        None => -EACCES,
        Some(m) => put_statx(mem, buf_ptr, Stat::from_metadata(&m)),
    }
}

/// What the end of `statx` of a path does.
pub open spec fn statx_of_path_after(
    m: Seq<u8>,
    ptr: int,
    meta: Result<FileMeta, IoErrorKind>,
) -> (int, Seq<u8>) {
    match meta {
        Err(e) => (vfs_errno(e) as int, m),
        Ok(x) => statx_told(m, ptr, x),
    }
}

/// Finish a `statx` of a path with the host's report.
pub fn statx_of_path(
    vfs: &Vfs,
    mem: &mut [u8],
    buf_ptr: i64,
    meta: Result<FileMeta, IoErrorKind>,
) -> (r: i64)
    ensures
        (r as int, final(mem)@) == statx_of_path_after(old(mem)@, buf_ptr as int, meta),
        final(mem)@.len() == old(mem)@.len(),
{
    match vfs.stat(meta) {
        Ok(s) => put_statx(mem, buf_ptr, s),
        Err(e) => e,
    }
}

/// A directory that the host is to make.
pub struct Making {
    pub path: GuestPath,
    /// The permission bits that it is to have.
    pub mode: u32,
}

/// What `mkdirat` asks of the host, or why it fails.
pub open spec fn making(r: VfsResult<Making>) -> Result<(Seq<Seq<u8>>, u32), i64> {
    match r {
        Ok(q) => Ok((q.path@, q.mode)),
        Err(e) => Err(e),
    }
}

/// The directory that `path_ptr` names, with the permission bits of `mode`.
pub open spec fn mkdir_request(
    f: FdModel,
    vfs: Vfs,
    m: Seq<u8>,
    dirfd: i64,
    path_ptr: i64,
    mode: i64,
) -> Result<(Seq<Seq<u8>>, u32), i64> {
    match named(f, vfs, m, dirfd, path_ptr) {
        Ok(p) => Ok((p, (mode as u32) & 0o777)),
        Err(e) => Err(e),
    }
}

/// What `mkdir` asks of the host.
pub open spec fn mkdir_call(f: FdModel, vfs: Vfs, m: Seq<u8>, a: [i64; 6]) -> Result<
    (Seq<Seq<u8>>, u32),
    i64,
> {
    mkdir_request(f, vfs, m, AT_FDCWD, a[0], a[1])
}

/// `mkdir(path, mode)`: the directory that the host is to make. Of the mode only the
/// permission bits count, and there is no umask.
pub fn mkdir(fds: &FdTable, vfs: &Vfs, mem: &[u8], a: [i64; 6]) -> (r: VfsResult<Making>)
    requires
        fds@.wf(),
    ensures
        making(r) == mkdir_call(fds@, *vfs, mem@, a),
        vfs.wf() ==> (r matches Ok(q) ==> inside(*vfs, q.path@)),
{
    mkdirat(fds, vfs, mem, [AT_FDCWD, a[0], a[1], 0, 0, 0])
}

/// `mkdirat(dirfd, path, mode)`: the same, from the directory `dirfd`.
pub fn mkdirat(fds: &FdTable, vfs: &Vfs, mem: &[u8], a: [i64; 6]) -> (r: VfsResult<Making>)
    requires
        fds@.wf(),
    ensures
        making(r) == mkdir_request(fds@, *vfs, mem@, a[0], a[1], a[2]),
        vfs.wf() ==> (r matches Ok(q) ==> inside(*vfs, q.path@)),
{
    match named_path(fds, vfs, mem, a[0], a[1]) {
        Ok(path) => Ok(Making { path, mode: (a[2] as u32) & 0o777 }),
        Err(e) => Err(e),
    }
}

/// Where the path at the first argument leads from the working directory.
pub open spec fn named_from_here(f: FdModel, vfs: Vfs, m: Seq<u8>, a: [i64; 6]) -> Result<
    Seq<Seq<u8>>,
    i64,
> {
    named(f, vfs, m, AT_FDCWD, a[0])
}

/// `rmdir(path)`: the empty directory that the host is to remove.
pub fn rmdir(fds: &FdTable, vfs: &Vfs, mem: &[u8], a: [i64; 6]) -> (r: VfsResult<GuestPath>)
    requires
        fds@.wf(),
    ensures
        path_result(r) == named_from_here(fds@, *vfs, mem@, a),
        kept_inside(*vfs, r),
{
    named_path(fds, vfs, mem, AT_FDCWD, a[0])
}

/// `unlink(path)`: the file that the host is to remove.
pub fn unlink(fds: &FdTable, vfs: &Vfs, mem: &[u8], a: [i64; 6]) -> (r: VfsResult<GuestPath>)
    requires
        fds@.wf(),
    ensures
        path_result(r) == named_from_here(fds@, *vfs, mem@, a),
        kept_inside(*vfs, r),
{
    named_path(fds, vfs, mem, AT_FDCWD, a[0])
}

/// What `unlinkat` asks the host to remove.
pub struct Removal {
    pub path: GuestPath,
    /// Whether it is to be an empty directory.
    pub directory: bool,
}

/// What `unlinkat` asks the host for: the path, and whether a directory is to go.
pub open spec fn unlink_request(f: FdModel, vfs: Vfs, m: Seq<u8>, a: [i64; 6]) -> Result<
    (Seq<Seq<u8>>, bool),
    i64,
> {
    match named(f, vfs, m, a[0], a[1]) {
        Ok(p) => Ok((p, (a[2] as i32) & AT_REMOVEDIR != 0)),
        Err(e) => Err(e),
    }
}

pub open spec fn removal(r: VfsResult<Removal>) -> Result<(Seq<Seq<u8>>, bool), i64> {
    match r {
        Ok(q) => Ok((q.path@, q.directory)),
        Err(e) => Err(e),
    }
}

/// `unlinkat(dirfd, path, flags)`: what the host is to remove.
pub fn unlinkat(fds: &FdTable, vfs: &Vfs, mem: &[u8], a: [i64; 6]) -> (r: VfsResult<Removal>)
    requires
        fds@.wf(),
    ensures
        removal(r) == unlink_request(fds@, *vfs, mem@, a),
        vfs.wf() ==> (r matches Ok(q) ==> inside(*vfs, q.path@)),
{
    match named_path(fds, vfs, mem, a[0], a[1]) {
        Ok(path) => Ok(Removal { path, directory: (a[2] as i32) & AT_REMOVEDIR != 0 }),
        Err(e) => Err(e),
    }
}

/// Two paths, both there and neither empty, resolved one after the other.
pub open spec fn named_pair(
    f: FdModel,
    vfs: Vfs,
    m: Seq<u8>,
    dir1: i64,
    ptr1: i64,
    dir2: i64,
    ptr2: i64,
) -> Result<(Seq<Seq<u8>>, Seq<Seq<u8>>), i64> {
    match (path_arg(m, ptr1), path_arg(m, ptr2)) {
        (Some(p), Some(q)) => if p.len() == 0 || q.len() == 0 {
            Err((-ENOENT) as i64)
        } else {
            match resolve_at(f, vfs.root@, vfs.cwd@, dir1, p) {
                Err(e) => Err(e),
                Ok(from) => match resolve_at(f, vfs.root@, vfs.cwd@, dir2, q) {
                    Err(e) => Err(e),
                    Ok(to) => Ok((from, to)),
                },
            }
        },
        _ => Err((-EFAULT) as i64),
    }
}

fn two_paths(
    fds: &FdTable,
    vfs: &Vfs,
    mem: &[u8],
    dir1: i64,
    ptr1: i64,
    dir2: i64,
    ptr2: i64,
) -> (r: VfsResult<(GuestPath, GuestPath)>)
    requires
        fds@.wf(),
    ensures
        match r {
            Ok(p) => named_pair(fds@, *vfs, mem@, dir1, ptr1, dir2, ptr2) == Ok::<
                (Seq<Seq<u8>>, Seq<Seq<u8>>),
                i64,
            >((p.0@, p.1@)),
            Err(e) => named_pair(fds@, *vfs, mem@, dir1, ptr1, dir2, ptr2) == Err::<
                (Seq<Seq<u8>>, Seq<Seq<u8>>),
                i64,
            >(e),
        },
        vfs.wf() ==> (r matches Ok(p) ==> inside(*vfs, p.0@) && inside(*vfs, p.1@)),
{
    let p: Vec<u8> = match guest_str(mem, ptr1, PATH_MAX) {
        Ok(s) => s,
        Err(e) => {
            return Err(e);
        },
    };
    let q: Vec<u8> = match guest_str(mem, ptr2, PATH_MAX) {
        Ok(s) => s,
        Err(e) => {
            return Err(e);
        },
    };
    if p.len() == 0 || q.len() == 0 {
        return Err(-ENOENT);
    }
    let from: GuestPath = match resolve(fds, vfs, dir1, p.as_slice()) {
        Ok(p) => p,
        Err(e) => {
            return Err(e);
        },
    };
    match resolve(fds, vfs, dir2, q.as_slice()) {
        Ok(to) => Ok((from, to)),
        Err(e) => Err(e),
    }
}

/// What `renameat` asks of the host.
pub struct Renaming {
    pub from: GuestPath,
    pub to: GuestPath,
    /// Whether something at `to` is to stay.
    pub no_replace: bool,
    /// Whether the two are to change places.
    pub exchange: bool,
}

/// Which flags `renameat` refuses: those it does not know, and whiteouts.
pub open spec fn bad_rename_flags(flags: i32) -> bool {
    flags & !(RENAME_NOREPLACE | RENAME_EXCHANGE | RENAME_WHITEOUT) != 0 || flags & RENAME_WHITEOUT
        != 0
}

/// What `renameat` asks of the host, or why it fails.
pub open spec fn rename_request(f: FdModel, vfs: Vfs, m: Seq<u8>, a: [i64; 6]) -> Result<
    (Seq<Seq<u8>>, Seq<Seq<u8>>, bool, bool),
    i64,
> {
    match named_pair(f, vfs, m, a[0], a[1], a[2], a[3]) {
        Err(e) => Err(e),
        Ok(p) => if bad_rename_flags(a[4] as i32) {
            Err((-EINVAL) as i64)
        } else {
            Ok(
                (
                    p.0,
                    p.1,
                    (a[4] as i32) & RENAME_NOREPLACE != 0,
                    (a[4] as i32) & RENAME_EXCHANGE != 0,
                ),
            )
        },
    }
}

pub open spec fn renaming(r: VfsResult<Renaming>) -> Result<
    (Seq<Seq<u8>>, Seq<Seq<u8>>, bool, bool),
    i64,
> {
    match r {
        Ok(q) => Ok((q.from@, q.to@, q.no_replace, q.exchange)),
        Err(e) => Err(e),
    }
}

/// `renameat(olddirfd, oldpath, newdirfd, newpath, flags)`: what the host is to
/// rename. `RENAME_NOREPLACE` spares what is at the new path, and `RENAME_EXCHANGE`
/// swaps the two.
pub fn renameat(fds: &FdTable, vfs: &Vfs, mem: &[u8], a: [i64; 6]) -> (r: VfsResult<Renaming>)
    requires
        fds@.wf(),
    ensures
        renaming(r) == rename_request(fds@, *vfs, mem@, a),
        vfs.wf() ==> (r matches Ok(q) ==> inside(*vfs, q.from@) && inside(*vfs, q.to@)),
{
    let flags: i32 = a[4] as i32;
    let (from, to): (GuestPath, GuestPath) = match two_paths(
        fds,
        vfs,
        mem,
        a[0],
        a[1],
        a[2],
        a[3],
    ) {
        Ok(p) => p,
        Err(e) => {
            return Err(e);
        },
    };
    let known: i32 = RENAME_NOREPLACE | RENAME_EXCHANGE | RENAME_WHITEOUT;
    if flags & !known != 0 {
        return Err(-EINVAL);
    }
    if flags & RENAME_WHITEOUT != 0 {
        return Err(-EINVAL);
    }
    Ok(
        Renaming {
            from,
            to,
            no_replace: flags & RENAME_NOREPLACE != 0,
            exchange: flags & RENAME_EXCHANGE != 0,
        },
    )
}

/// `renameat2(olddirfd, oldpath, newdirfd, newpath, flags)`: the same as `renameat`.
pub fn renameat2(fds: &FdTable, vfs: &Vfs, mem: &[u8], a: [i64; 6]) -> (r: VfsResult<Renaming>)
    requires
        fds@.wf(),
    ensures
        renaming(r) == rename_request(fds@, *vfs, mem@, a),
        vfs.wf() ==> (r matches Ok(q) ==> inside(*vfs, q.from@) && inside(*vfs, q.to@)),
{
    renameat(fds, vfs, mem, a)
}

/// What `rename` asks of the host.
pub open spec fn rename_call(f: FdModel, vfs: Vfs, m: Seq<u8>, a: [i64; 6]) -> Result<
    (Seq<Seq<u8>>, Seq<Seq<u8>>, bool, bool),
    i64,
> {
    rename_request(f, vfs, m, [AT_FDCWD, a[0], AT_FDCWD, a[1], 0, 0])
}

/// `rename(oldpath, newpath)`: `renameat` within the working directory, without
/// flags.
pub fn rename(fds: &FdTable, vfs: &Vfs, mem: &[u8], a: [i64; 6]) -> (r: VfsResult<Renaming>)
    requires
        fds@.wf(),
    ensures
        renaming(r) == rename_call(fds@, *vfs, mem@, a),
        vfs.wf() ==> (r matches Ok(q) ==> inside(*vfs, q.from@) && inside(*vfs, q.to@)),
{
    renameat(fds, vfs, mem, [AT_FDCWD, a[0], AT_FDCWD, a[1], 0, 0])
}

/// Whether a renaming may go ahead.
pub open spec fn rename_verdict(no_replace: bool, target_exists: bool) -> Result<(), i64> {
    if no_replace && target_exists {
        Err((-EEXIST) as i64)
    } else {
        Ok(())
    }
}

/// Whether a renaming may go ahead, given whether there is something at its target.
pub fn rename_allowed(request: &Renaming, target_exists: bool) -> (r: Result<(), i64>)
    ensures
        r == rename_verdict(request.no_replace, target_exists),
{
    if request.no_replace && target_exists {
        Err(-EEXIST)
    } else {
        Ok(())
    }
}

/// A file to be cut off or extended to a length.
pub struct Truncation {
    pub path: GuestPath,
    pub len: u64,
}

/// What `truncate` asks the host for: the path and the length.
pub open spec fn truncate_request(f: FdModel, vfs: Vfs, m: Seq<u8>, a: [i64; 6]) -> Result<
    (Seq<Seq<u8>>, u64),
    i64,
> {
    match path_arg(m, a[0]) {
        Some(p) if p.len() > 0 && a[1] < 0 => Err((-EINVAL) as i64),
        _ => match named(f, vfs, m, AT_FDCWD, a[0]) {
            Ok(p) => Ok((p, a[1] as u64)),
            Err(e) => Err(e),
        },
    }
}

pub open spec fn truncation(r: VfsResult<Truncation>) -> Result<(Seq<Seq<u8>>, u64), i64> {
    match r {
        Ok(q) => Ok((q.path@, q.len)),
        Err(e) => Err(e),
    }
}

/// `truncate(path, len)`. The file is made if it is not there.
pub fn truncate(fds: &FdTable, vfs: &Vfs, mem: &[u8], a: [i64; 6]) -> (r: VfsResult<Truncation>)
    requires
        fds@.wf(),
    ensures
        truncation(r) == truncate_request(fds@, *vfs, mem@, a),
        r is Ok ==> a[1] >= 0,
{
    let path: Vec<u8> = match guest_str(mem, a[0], PATH_MAX) {
        Ok(s) => s,
        Err(e) => {
            return Err(e);
        },
    };
    if path.len() == 0 {
        return Err(-ENOENT);
    }
    if a[1] < 0 {
        return Err(-EINVAL);
    }
    match resolve(fds, vfs, AT_FDCWD, path.as_slice()) {
        Ok(path) => Ok(Truncation { path, len: a[1] as u64 }),
        Err(e) => Err(e),
    }
}

/// What `ftruncate` asks the host for: the file and the length.
pub open spec fn ftruncate_request(f: FdModel, a: [i64; 6]) -> Result<(u64, u64), i64> {
    if !(0 <= a[0] <= u32::MAX) {
        Err((-EBADF) as i64)
    } else if a[1] < 0 {
        Err((-EINVAL) as i64)
    } else {
        match f.at(a[0] as int) {
            Some(Resource::File(n)) => Ok((n, a[1] as u64)),
            _ => Err((-EBADF) as i64),
        }
    }
}

/// `ftruncate(fd, len)`: the file and its new length.
pub fn ftruncate(fds: &FdTable, a: [i64; 6]) -> (r: VfsResult<(u64, u64)>)
    ensures
        r == ftruncate_request(fds@, a),
{
    if fd_arg(a[0]).is_none() {
        return Err(-EBADF);
    }
    if a[1] < 0 {
        return Err(-EINVAL);
    }
    match fds.lookup(a[0]) {
        Some(Resource::File(n)) => Ok((n, a[1] as u64)),
        _ => Err(-EBADF),
    }
}

/// Where `readlinkat` leads: a bad buffer length is refused first.
pub open spec fn readlink_path(f: FdModel, vfs: Vfs, m: Seq<u8>, a: [i64; 6]) -> Result<
    Seq<Seq<u8>>,
    i64,
> {
    if !(0 <= a[3] <= usize::MAX) {
        Err((-EINVAL) as i64)
    } else {
        named(f, vfs, m, a[0], a[1])
    }
}

/// `readlinkat(dirfd, path, buf, buf_len)`: the link that the host is to read.
pub fn readlinkat(fds: &FdTable, vfs: &Vfs, mem: &[u8], a: [i64; 6]) -> (r: VfsResult<GuestPath>)
    requires
        fds@.wf(),
    ensures
        path_result(r) == readlink_path(fds@, *vfs, mem@, a),
        kept_inside(*vfs, r),
{
    if to_index(a[3]).is_none() {
        return Err(-EINVAL);
    }
    named_path(fds, vfs, mem, a[0], a[1])
}

/// Where `readlink` leads.
pub open spec fn readlink_call(f: FdModel, vfs: Vfs, m: Seq<u8>, a: [i64; 6]) -> Result<
    Seq<Seq<u8>>,
    i64,
> {
    readlink_path(f, vfs, m, [AT_FDCWD, a[0], a[1], a[2], 0, 0])
}

/// `readlink(path, buf, buf_len)`: `readlinkat` from the working directory.
pub fn readlink(fds: &FdTable, vfs: &Vfs, mem: &[u8], a: [i64; 6]) -> (r: VfsResult<GuestPath>)
    requires
        fds@.wf(),
    ensures
        path_result(r) == readlink_call(fds@, *vfs, mem@, a),
        kept_inside(*vfs, r),
{
    readlinkat(fds, vfs, mem, [AT_FDCWD, a[0], a[1], a[2], 0, 0])
}

/// What the end of `readlinkat` does with the text of the link.
pub open spec fn readlink_told(
    m: Seq<u8>,
    ptr: int,
    len: int,
    target: Result<Seq<u8>, IoErrorKind>,
) -> (int, Seq<u8>) {
    match target {
        Err(e) => (-file_errno(e), m),
        Ok(t) => if t.len() > len {
            (-ENAMETOOLONG, m)
        } else {
            (
                match bounds_answer(m.len(), ptr, t.len() as int) {
                    Ok(_) => t.len() as int,
                    Err(e) => e as int,
                },
                written(m, ptr, t),
            )
        },
    }
}

/// Finish a `readlinkat` with the text of the link. A text that is longer than the
/// buffer is refused. No zero byte is added.
pub fn readlinkat_done(
    mem: &mut [u8],
    buf_ptr: i64,
    buf_len: i64,
    target: Result<Vec<u8>, IoErrorKind>,
) -> (r: i64)
    requires
        buf_len >= 0,
    ensures
        final(mem)@.len() == old(mem)@.len(),
        (r as int, final(mem)@) == readlink_told(
            old(mem)@,
            buf_ptr as int,
            buf_len as int,
            (match target {
                Ok(t) => Ok(t@),
                Err(e) => Err(e),
            }),
        ),
{
    let t: Vec<u8> = match target {
        Ok(t) => t,
        Err(e) => {
            return -io_to_errno(e);
        },
    };
    let n: usize = t.len();
    if n as u64 > buf_len as u64 {
        return -ENAMETOOLONG;
    }
    match guest_write(mem, buf_ptr, t.as_slice()) {
        Ok(_) => n as i64,
        Err(e) => e,
    }
}

/// A link to be made: its text, stored as it is, and its place.
pub struct Linking {
    pub target: Vec<u8>,
    pub path: GuestPath,
}

/// What `symlinkat` asks of the host, or why it fails.
pub open spec fn symlink_request(
    f: FdModel,
    vfs: Vfs,
    m: Seq<u8>,
    target_ptr: i64,
    dirfd: i64,
    path_ptr: i64,
) -> Result<(Seq<u8>, Seq<Seq<u8>>), i64> {
    match path_arg(m, target_ptr) {
        None => Err((-EFAULT) as i64),
        Some(t) => match named(f, vfs, m, dirfd, path_ptr) {
            Ok(p) => Ok((t, p)),
            Err(e) => Err(e),
        },
    }
}

pub open spec fn linking(r: VfsResult<Linking>) -> Result<(Seq<u8>, Seq<Seq<u8>>), i64> {
    match r {
        Ok(q) => Ok((q.target@, q.path@)),
        Err(e) => Err(e),
    }
}

/// `symlinkat(target, newdirfd, linkpath)`.
pub fn symlinkat(fds: &FdTable, vfs: &Vfs, mem: &[u8], a: [i64; 6]) -> (r: VfsResult<Linking>)
    requires
        fds@.wf(),
    ensures
        linking(r) == symlink_request(fds@, *vfs, mem@, a[0], a[1], a[2]),
        vfs.wf() ==> (r matches Ok(q) ==> inside(*vfs, q.path@)),
{
    let target: Vec<u8> = match guest_str(mem, a[0], PATH_MAX) {
        Ok(s) => s,
        Err(e) => {
            return Err(e);
        },
    };
    match named_path(fds, vfs, mem, a[1], a[2]) {
        Ok(path) => Ok(Linking { target, path }),
        Err(e) => Err(e),
    }
}

/// What `symlink` asks of the host.
pub open spec fn symlink_call(f: FdModel, vfs: Vfs, m: Seq<u8>, a: [i64; 6]) -> Result<
    (Seq<u8>, Seq<Seq<u8>>),
    i64,
> {
    symlink_request(f, vfs, m, a[0], AT_FDCWD, a[1])
}

/// `symlink(target, linkpath)`: `symlinkat` from the working directory.
pub fn symlink(fds: &FdTable, vfs: &Vfs, mem: &[u8], a: [i64; 6]) -> (r: VfsResult<Linking>)
    requires
        fds@.wf(),
    ensures
        linking(r) == symlink_call(fds@, *vfs, mem@, a),
        vfs.wf() ==> (r matches Ok(q) ==> inside(*vfs, q.path@)),
{
    symlinkat(fds, vfs, mem, [a[0], AT_FDCWD, a[1], 0, 0, 0])
}

pub open spec fn pair_result(r: VfsResult<(GuestPath, GuestPath)>) -> Result<
    (Seq<Seq<u8>>, Seq<Seq<u8>>),
    i64,
> {
    match r {
        Ok(p) => Ok((p.0@, p.1@)),
        Err(e) => Err(e),
    }
}

/// `linkat(olddirfd, oldpath, newdirfd, newpath, flags)`: the file and the second
/// place that it is to have. The flags are not used.
pub fn linkat(fds: &FdTable, vfs: &Vfs, mem: &[u8], a: [i64; 6]) -> (r: VfsResult<
    (GuestPath, GuestPath),
>)
    requires
        fds@.wf(),
    ensures
        pair_result(r) == named_pair(fds@, *vfs, mem@, a[0], a[1], a[2], a[3]),
        vfs.wf() ==> (r matches Ok(p) ==> inside(*vfs, p.0@) && inside(*vfs, p.1@)),
{
    two_paths(fds, vfs, mem, a[0], a[1], a[2], a[3])
}

/// The two paths of a `link`. An empty new path is an invalid argument.
pub open spec fn link_request(
    f: FdModel,
    vfs: Vfs,
    m: Seq<u8>,
    old_ptr: i64,
    new_ptr: i64,
) -> Result<(Seq<Seq<u8>>, Seq<Seq<u8>>), i64> {
    match (path_arg(m, old_ptr), path_arg(m, new_ptr)) {
        (Some(_), Some(q)) => if q.len() == 0 {
            Err((-EINVAL) as i64)
        } else {
            named_pair(f, vfs, m, AT_FDCWD, old_ptr, AT_FDCWD, new_ptr)
        },
        _ => Err((-EFAULT) as i64),
    }
}

/// `link(oldpath, newpath)`: `linkat` within the working directory, but for an empty
/// new path, which is an invalid argument here.
pub fn link(fds: &FdTable, vfs: &Vfs, mem: &[u8], a: [i64; 6]) -> (r: VfsResult<
    (GuestPath, GuestPath),
>)
    requires
        fds@.wf(),
    ensures
        pair_result(r) == link_request(fds@, *vfs, mem@, a[0], a[1]),
        vfs.wf() ==> (r matches Ok(p) ==> inside(*vfs, p.0@) && inside(*vfs, p.1@)),
{
    match guest_str(mem, a[0], PATH_MAX) {
        Ok(_) => {},
        Err(e) => {
            return Err(e);
        },
    }
    match guest_str(mem, a[1], PATH_MAX) {
        Ok(q) => {
            if q.len() == 0 {
                return Err(-EINVAL);
            }
        },
        Err(e) => {
            return Err(e);
        },
    }
    linkat(fds, vfs, mem, [AT_FDCWD, a[0], AT_FDCWD, a[1], 0, 0])
}

/// The moment that a `struct timespec` names. One with a negative field names the
/// epoch.
pub open spec fn timespec_time(sec: int, nsec: int) -> HostTime {
    if sec < 0 || nsec < 0 {
        epoch()
    } else {
        HostTime {
            before_epoch: false,
            secs: (sec + nsec / 1_000_000_000) as u64,
            nanos: (nsec % 1_000_000_000) as u32,
        }
    }
}

/// The moment that the `struct timespec` in `b` names.
pub fn timespec_from_bytes(b: &[u8]) -> (r: HostTime)
    requires
        b@.len() == 16,
    ensures
        r == timespec_time(int64(word_at(b@, 0, 8)), int64(word_at(b@, 8, 8))),
{
    let sec: i64 = to_int64(read_le(b, 0, 8));
    let nsec: i64 = to_int64(read_le(b, 8, 8));
    if sec < 0 || nsec < 0 {
        return HostTime::epoch();
    }
    let s: u64 = sec as u64;
    let n: u64 = nsec as u64;
    HostTime {
        before_epoch: false,
        secs: s + n / 1_000_000_000,
        nanos: (n % 1_000_000_000) as u32,
    }
}

/// A file whose times are to be set: to the access and modification time given, or
/// to now.
pub struct Touching {
    pub path: GuestPath,
    pub times: Option<(HostTime, HostTime)>,
}

/// The times that the 32 bytes at `ptr` name; null means now.
pub open spec fn times_arg(m: Seq<u8>, ptr: i64) -> Result<Option<(HostTime, HostTime)>, i64> {
    if ptr == 0 {
        Ok(None)
    } else if !in_bounds(m.len(), ptr as int, 32) {
        Err((-EFAULT) as i64)
    } else {
        Ok(
            Some(
                (
                    timespec_time(
                        int64(word_at(m, ptr as int, 8)),
                        int64(word_at(m, ptr + 8, 8)),
                    ),
                    timespec_time(
                        int64(word_at(m, ptr + 16, 8)),
                        int64(word_at(m, ptr + 24, 8)),
                    ),
                ),
            ),
        )
    }
}

/// What `utimensat` asks the host for: the path and the times, or the present.
pub open spec fn utimensat_request(f: FdModel, vfs: Vfs, m: Seq<u8>, a: [i64; 6]) -> Result<
    (Seq<Seq<u8>>, Option<(HostTime, HostTime)>),
    i64,
> {
    match named(f, vfs, m, a[0], a[1]) {
        Err(e) => Err(e),
        Ok(p) => match times_arg(m, a[2]) {
            Err(e) => Err(e),
            Ok(t) => Ok((p, t)),
        },
    }
}

pub open spec fn touching(r: VfsResult<Touching>) -> Result<
    (Seq<Seq<u8>>, Option<(HostTime, HostTime)>),
    i64,
> {
    match r {
        Ok(q) => Ok((q.path@, q.times)),
        Err(e) => Err(e),
    }
}

/// `utimensat(dirfd, path, times, flags)`. The flags are not used.
pub fn utimensat(fds: &FdTable, vfs: &Vfs, mem: &[u8], a: [i64; 6]) -> (r: VfsResult<Touching>)
    requires
        fds@.wf(),
    ensures
        touching(r) == utimensat_request(fds@, *vfs, mem@, a),
{
    let path: GuestPath = match named_path(fds, vfs, mem, a[0], a[1]) {
        Ok(p) => p,
        Err(e) => {
            return Err(e);
        },
    };
    if a[2] == 0 {
        return Ok(Touching { path, times: None });
    }
    let b: Vec<u8> = match guest_slice(mem, a[2], 32) {
        Ok(b) => b,
        Err(e) => {
            return Err(e);
        },
    };
    let first: &[u8] = vstd::slice::slice_subrange(b.as_slice(), 0, 16);
    let second: &[u8] = vstd::slice::slice_subrange(b.as_slice(), 16, 32);
    let atime: HostTime = timespec_from_bytes(first);
    let mtime: HostTime = timespec_from_bytes(second);
    proof {
        let p = a[2] as int;
        assert(window(first@, 0, 8) =~= window(mem@, p, 8));
        assert(window(first@, 8, 8) =~= window(mem@, p + 8, 8));
        assert(window(second@, 0, 8) =~= window(mem@, p + 16, 8));
        assert(window(second@, 8, 8) =~= window(mem@, p + 24, 8));
    }
    Ok(Touching { path, times: Some((atime, mtime)) })
}

/// A path and the permission bits it is to get.
pub struct ModeChange {
    pub path: GuestPath,
    pub mode: u32,
}

pub open spec fn mode_change(r: VfsResult<ModeChange>) -> Result<(Seq<Seq<u8>>, u32), i64> {
    match r {
        Ok(q) => Ok((q.path@, q.mode)),
        Err(e) => Err(e),
    }
}

/// What `fchmodat` asks of the host: only the low twelve bits of the mode count.
pub open spec fn chmod_request(
    f: FdModel,
    vfs: Vfs,
    m: Seq<u8>,
    dirfd: i64,
    ptr: i64,
    mode: i64,
) -> Result<(Seq<Seq<u8>>, u32), i64> {
    match named(f, vfs, m, dirfd, ptr) {
        Ok(p) => Ok((p, (mode as u32) & 0o7777)),
        Err(e) => Err(e),
    }
}

/// `fchmodat(dirfd, path, mode, flags)`. The flags are not used.
pub fn fchmodat(fds: &FdTable, vfs: &Vfs, mem: &[u8], a: [i64; 6]) -> (r: VfsResult<ModeChange>)
    requires
        fds@.wf(),
    ensures
        mode_change(r) == chmod_request(fds@, *vfs, mem@, a[0], a[1], a[2]),
{
    let mode: u32 = (a[2] as u32) & 0o7777;
    match named_path(fds, vfs, mem, a[0], a[1]) {
        Ok(path) => Ok(ModeChange { path, mode }),
        Err(e) => Err(e),
    }
}

/// What `chmod` asks of the host.
pub open spec fn chmod_call(f: FdModel, vfs: Vfs, m: Seq<u8>, a: [i64; 6]) -> Result<
    (Seq<Seq<u8>>, u32),
    i64,
> {
    chmod_request(f, vfs, m, AT_FDCWD, a[0], a[1])
}

/// `chmod(path, mode)`: `fchmodat` from the working directory.
pub fn chmod(fds: &FdTable, vfs: &Vfs, mem: &[u8], a: [i64; 6]) -> (r: VfsResult<ModeChange>)
    requires
        fds@.wf(),
    ensures
        mode_change(r) == chmod_call(fds@, *vfs, mem@, a),
{
    fchmodat(fds, vfs, mem, [AT_FDCWD, a[0], a[1], 0, 0, 0])
}

/// What `fchmod` asks the host for: the file and the permission bits.
pub open spec fn fchmod_request(f: FdModel, a: [i64; 6]) -> Result<(u64, u32), i64> {
    match f.at((a[0] as u32) as int) {
        Some(Resource::File(n)) => Ok((n, (a[1] as u32) & 0o7777)),
        _ => Err((-EBADF) as i64),
    }
}

/// `fchmod(fd, mode)`: the file and its new permission bits. Of the descriptor only
/// the low 32 bits count.
pub fn fchmod(fds: &FdTable, a: [i64; 6]) -> (r: VfsResult<(u64, u32)>)
    ensures
        r == fchmod_request(fds@, a),
{
    let fd: u32 = a[0] as u32;
    let mode: u32 = (a[1] as u32) & 0o7777;
    match fds.get(fd) {
        Ok(Resource::File(n)) => Ok((n, mode)),
        Ok(_) => Err(-EBADF),
        Err(e) => Err(e),
    }
}

/// `faccessat2(dirfd, path, mode, flags)`: the path that the host is to report on.
/// The flags are not used.
pub fn faccessat2(fds: &FdTable, vfs: &Vfs, mem: &[u8], a: [i64; 6]) -> (r: VfsResult<GuestPath>)
    requires
        fds@.wf(),
    ensures
        path_result(r) == named(fds@, *vfs, mem@, a[0], a[1]),
        kept_inside(*vfs, r),
{
    named_path(fds, vfs, mem, a[0], a[1])
}

/// `faccessat(dirfd, path, mode, flags)`: the same as `faccessat2`.
pub fn faccessat(fds: &FdTable, vfs: &Vfs, mem: &[u8], a: [i64; 6]) -> (r: VfsResult<GuestPath>)
    requires
        fds@.wf(),
    ensures
        path_result(r) == named(fds@, *vfs, mem@, a[0], a[1]),
        kept_inside(*vfs, r),
{
    faccessat2(fds, vfs, mem, a)
}

/// Whether the permission bits `perm` grant what `mode` asks for to somebody.
pub open spec fn grants(mode: i32, readonly: bool, perm: u32) -> bool {
    mode == F_OK || ((mode & R_OK != 0 ==> perm & 0o444 != 0) && (mode & W_OK != 0 ==> !readonly
        && perm & 0o222 != 0) && (mode & X_OK != 0 ==> perm & 0o111 != 0))
}

/// The answer of `faccessat` to what the host knows of the path.
pub open spec fn access_answer(mode: i64, meta: Result<FileMeta, IoErrorKind>) -> int {
    match meta {
        Err(e) => -file_errno(e),
        Ok(m) => if grants(mode as i32, m.readonly, m.perm) {
            0
        } else {
            -EACCES
        },
    }
}

/// Finish a `faccessat` with the host's report on the path.
pub fn faccessat_done(mode: i64, meta: Result<FileMeta, IoErrorKind>) -> (r: i64)
    ensures
        r == access_answer(mode, meta),
{
    let mode: i32 = mode as i32;
    let m: FileMeta = match meta {
        Ok(m) => m,
        Err(e) => {
            return -io_to_errno(e);
        },
    };
    if mode == F_OK {
        return 0;
    }
    if mode & R_OK != 0 && m.perm & 0o444 == 0 {
        return -EACCES;
    }
    if mode & W_OK != 0 && (m.readonly || m.perm & 0o222 == 0) {
        return -EACCES;
    }
    if mode & X_OK != 0 && m.perm & 0o111 == 0 {
        return -EACCES;
    }
    0
}

/// `chdir(path)`: the directory that the host is to report on. `Vfs::chdir` and
/// `changed` finish.
pub fn chdir(fds: &FdTable, vfs: &Vfs, mem: &[u8], a: [i64; 6]) -> (r: VfsResult<GuestPath>)
    requires
        fds@.wf(),
    ensures
        path_result(r) == named_from_here(fds@, *vfs, mem@, a),
        kept_inside(*vfs, r),
{
    named_path(fds, vfs, mem, AT_FDCWD, a[0])
}

/// `chroot(path)`: the directory that the host is to report on. `Vfs::chroot` and
/// `changed` finish.
pub fn chroot(fds: &FdTable, vfs: &Vfs, mem: &[u8], a: [i64; 6]) -> (r: VfsResult<GuestPath>)
    requires
        fds@.wf(),
    ensures
        path_result(r) == named_from_here(fds@, *vfs, mem@, a),
        kept_inside(*vfs, r),
{
    named_path(fds, vfs, mem, AT_FDCWD, a[0])
}

/// The result of a `chdir` or `chroot`.
pub fn changed(outcome: VfsResult<()>) -> (r: i64)
    ensures
        r == (match outcome {
            Ok(_) => 0,
            Err(e) => e,
        }),
{
    match outcome {
        Ok(_) => 0,
        Err(e) => e,
    }
}

} // verus!
