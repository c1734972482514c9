//! The guest's view of the host file system.
//!
//! All paths resolve inside one host directory, the root. A path that would lead
//! above it is refused with `-EACCES`.

use vstd::prelude::*;
use vstd::slice::slice_subrange;
use vstd::slice::slice_to_vec;
use crate::bytes::int64;
use crate::bytes::le;
use crate::bytes::le_len;
use crate::bytes::push_bytes;
use crate::bytes::push_le;
use crate::bytes::push_zeros;
use crate::bytes::to_int64;
use crate::bytes::to_word64;
use crate::bytes::word64;
use crate::bytes::zeros;
use crate::errno::EACCES;
use crate::errno::EFAULT;
use crate::errno::EINVAL;
use crate::errno::EIO;
use crate::errno::ELOOP;
use crate::errno::ENOENT;
use crate::errno::ENOSYS;
use crate::errno::ENOTDIR;
use crate::fd::AT_FDCWD;
use crate::host::epoch;
use crate::host::DirEntry;
use crate::host::FileKind;
use crate::host::FileMeta;
use crate::host::HostTime;
use crate::host::IoErrorKind;
use crate::mem::bounds_answer;
use crate::mem::copy_into;
use crate::mem::guest_write;
use crate::mem::window;
use crate::mem::written;
use crate::path::all_names;
use crate::path::is_absolute;
use crate::path::is_step;
use crate::path::is_under;
use crate::path::path_text;
use crate::path::split_steps;
use crate::path::steps;
use crate::path::steps_are_steps;
use crate::path::steps_of_text;
use crate::path::walk;
use crate::path::walk_in_parts;
use crate::path::walk_of_names;
use crate::path::walk_stays_among_names;
use crate::path::GuestPath;
use crate::path::SLASH;
use crate::sys::file::O_ACCMODE;
use crate::sys::file::O_APPEND;
use crate::sys::file::O_CREAT;
use crate::sys::file::O_DIRECTORY;
use crate::sys::file::O_EXCL;
use crate::sys::file::O_RDONLY;
use crate::sys::file::O_RDWR;
use crate::sys::file::O_TRUNC;
use crate::sys::file::O_WRONLY;

verus! {

broadcast use le_len;

/// `Ok` or a negated error number.
pub type VfsResult<T> = Result<T, i64>;

/// Where the guest's paths lead.
pub struct Vfs {
    /// The directory that bounds every path.
    pub root: GuestPath,
    /// The directory that relative paths start from, inside the root.
    pub cwd: GuestPath,
}

/// The steps from the top directory that `(dirfd, path)` stands for, before `..`
/// is worked out; an error number where there is no such place to start from. An
/// absolute path that spells out the root is taken as it stands; any other
/// absolute path starts at the root.
pub open spec fn route(
    root: Seq<Seq<u8>>,
    cwd: Seq<Seq<u8>>,
    dirfd: i64,
    path: Seq<u8>,
) -> Result<Seq<Seq<u8>>, i64> {
    if is_absolute(path) && is_under(steps(path), root) {
        Ok(steps(path))
    } else if is_absolute(path) {
        Ok(root + steps(path))
    } else if dirfd == AT_FDCWD {
        Ok(cwd + steps(path))
    } else {
        Err((-ENOSYS) as i64)
    }
}

/// Where a walk along `c` from the top directory ends, if that is inside `root`.
pub open spec fn confined(root: Seq<Seq<u8>>, c: Seq<Seq<u8>>) -> Result<Seq<Seq<u8>>, i64> {
    match walk(Seq::empty(), c) {
        Some(p) => if is_under(p, root) {
            Ok(p)
        } else {
            Err((-EACCES) as i64)
        },
        None => Err((-EACCES) as i64),
    }
}

/// The path inside the root that `(dirfd, path)` names.
pub open spec fn resolved(
    root: Seq<Seq<u8>>,
    cwd: Seq<Seq<u8>>,
    dirfd: i64,
    path: Seq<u8>,
) -> Result<Seq<Seq<u8>>, i64> {
    match route(root, cwd, dirfd, path) {
        Ok(c) => confined(root, c),
        Err(e) => Err(e),
    }
}

/// A result over paths, taken by the names of the path.
pub open spec fn path_result(r: Result<GuestPath, i64>) -> Result<Seq<Seq<u8>>, i64> {
    match r {
        Ok(p) => Ok(p@),
        Err(e) => Err(e),
    }
}

/// The error number for a failed host operation on a path.
pub open spec fn vfs_errno(e: IoErrorKind) -> i64 {
    match e {
        IoErrorKind::NotFound => (-ENOENT) as i64,
        IoErrorKind::PermissionDenied => (-EACCES) as i64,
        IoErrorKind::InvalidInput => (-EFAULT) as i64,
        IoErrorKind::TooManyLinks => (-ELOOP) as i64,
        _ => (-EIO) as i64,
    }
}

fn io_to_errno(e: IoErrorKind) -> (r: i64)
    ensures
        r == vfs_errno(e),
{
    match e {
        IoErrorKind::NotFound => -ENOENT,
        IoErrorKind::PermissionDenied => -EACCES,
        IoErrorKind::InvalidInput => -EFAULT,
        IoErrorKind::TooManyLinks => -ELOOP,
        _ => -EIO,
    }
}

/// How the host is to open a file.
#[derive(Clone, Copy, PartialEq, Eq, Structural, Debug)]
pub struct OpenOptions {
    pub read: bool,
    pub write: bool,
    pub create: bool,
    pub create_new: bool,
    pub truncate: bool,
    pub append: bool,
    /// Whether anything but a directory is to be refused.
    pub directory: bool,
}

/// The host options for the `open` flags, or `-EINVAL` for an access mode that is
/// none of the three.
pub open spec fn open_options(flags: i32) -> Result<OpenOptions, i64> {
    let acc = flags & O_ACCMODE;
    if acc != O_RDONLY && acc != O_WRONLY && acc != O_RDWR {
        Err((-EINVAL) as i64)
    } else {
        Ok(
            OpenOptions {
                read: acc == O_RDONLY || acc == O_RDWR,
                write: acc == O_WRONLY || acc == O_RDWR,
                create: flags & O_CREAT != 0,
                create_new: flags & O_CREAT != 0 && flags & O_EXCL != 0,
                truncate: flags & O_TRUNC != 0,
                append: flags & O_APPEND != 0,
                directory: flags & O_DIRECTORY != 0,
            },
        )
    }
}

/// The verdict on a host open.
pub open spec fn opened_verdict(
    options: OpenOptions,
    opened: Result<bool, IoErrorKind>,
) -> VfsResult<bool> {
    match opened {
        Ok(is_dir) => if options.directory && !is_dir {
            Err((-ENOTDIR) as i64)
        } else {
            Ok(is_dir)
        },
        Err(e) => Err(vfs_errno(e)),
    }
}

/// The answer of a change of the working directory, and the directory then.
pub open spec fn chdir_after(
    root: Seq<Seq<u8>>,
    cwd: Seq<Seq<u8>>,
    abs: Seq<Seq<u8>>,
    meta: Result<bool, IoErrorKind>,
) -> (VfsResult<()>, Seq<Seq<u8>>) {
    if !is_under(abs, root) {
        (Err((-EACCES) as i64), cwd)
    } else {
        match meta {
            Err(e) => (Err(vfs_errno(e)), cwd),
            Ok(is_dir) => if is_dir {
                (Ok(()), abs)
            } else {
                (Err((-ENOTDIR) as i64), cwd)
            },
        }
    }
}

/// The answer of a change of the root, and the root and the working directory then.
pub open spec fn chroot_after(
    root: Seq<Seq<u8>>,
    cwd: Seq<Seq<u8>>,
    abs: Seq<Seq<u8>>,
    meta: Result<bool, IoErrorKind>,
) -> (VfsResult<()>, Seq<Seq<u8>>, Seq<Seq<u8>>) {
    match meta {
        Err(e) => (Err(vfs_errno(e)), root, cwd),
        Ok(is_dir) => if is_dir {
            (Ok(()), abs, abs)
        } else {
            (Err((-ENOTDIR) as i64), root, cwd)
        },
    }
}

impl Vfs {
    /// The root and the working directory are proper paths, and the working
    /// directory lies inside the root.
    pub open spec fn wf(&self) -> bool {
        &&& all_names(self.root@)
        &&& all_names(self.cwd@)
        &&& is_under(self.cwd@, self.root@)
    }

    /// A view rooted at the host directory `preopen`, given by its canonical path
    /// or by why the host could not tell it. The working directory starts there.
    pub fn new(preopen: Result<GuestPath, IoErrorKind>) -> (r: VfsResult<Vfs>)
        ensures
            match preopen {
                Ok(p) => r matches Ok(v) && v.root@ == p@ && v.cwd@ == p@ && (all_names(p@)
                    ==> v.wf()),
                Err(e) => r == Err::<Vfs, i64>(vfs_errno(e)),
            },
    {
        match preopen {
            Ok(p) => {
                let v: Vfs = Vfs { cwd: p.copy(), root: p };
                Ok(v)
            },
            Err(e) => Err(io_to_errno(e)),
        }
    }

    /// The path inside the root that `(dirfd, path)` names.
    pub fn resolve_path(&self, dirfd: i64, path: &[u8]) -> (r: VfsResult<GuestPath>)
        ensures
            path_result(r) == resolved(self.root@, self.cwd@, dirfd, path@),
    {
        let absolute: bool = path.len() > 0 && path[0] == SLASH;
        let given: GuestPath = split_steps(path);
        if absolute && given.starts_with(&self.root) {
            return self.normalize(given);
        }
        let mut from: GuestPath = if absolute {
            self.root.copy()
        } else if dirfd == AT_FDCWD {
            self.cwd.copy()
        } else {
            return Err(-ENOSYS);
        };
        from.append(&given);
        self.normalize(from)
    }

    /// Work out `..` and refuse what ends outside the root.
    pub fn normalize(&self, joined: GuestPath) -> (r: VfsResult<GuestPath>)
        ensures
            path_result(r) == confined(self.root@, joined@),
    {
        match joined.collapse() {
            None => Err(-EACCES),
            Some(p) => {
                if p.starts_with(&self.root) {
                    Ok(p)
                } else {
                    Err(-EACCES)
                }
            },
        }
    }

    /// What the host is to do for an `open` with these flags.
    pub fn open(&self, flags: i32) -> (r: VfsResult<OpenOptions>)
        ensures
            r == open_options(flags),
    {
        let acc: i32 = flags & O_ACCMODE;
        if acc != O_RDONLY && acc != O_WRONLY && acc != O_RDWR {
            return Err(-EINVAL);
        }
        Ok(
            OpenOptions {
                read: acc == O_RDONLY || acc == O_RDWR,
                write: acc == O_WRONLY || acc == O_RDWR,
                create: flags & O_CREAT != 0,
                create_new: flags & O_CREAT != 0 && flags & O_EXCL != 0,
                truncate: flags & O_TRUNC != 0,
                append: flags & O_APPEND != 0,
                directory: flags & O_DIRECTORY != 0,
            },
        )
    }

    /// The verdict on a host open: `opened` tells, of the open file, whether it is
    /// a directory.
    pub fn opened(
        &self,
        options: OpenOptions,
        opened: Result<bool, IoErrorKind>,
    ) -> (r: VfsResult<bool>)
        ensures
            r == opened_verdict(options, opened),
    {
        match opened {
            Ok(is_dir) => {
                if options.directory && !is_dir {
                    Err(-ENOTDIR)
                } else {
                    Ok(is_dir)
                }
            },
            Err(e) => Err(io_to_errno(e)),
        }
    }

    /// The attributes of a path, from the host's report.
    pub fn stat(&self, meta: Result<FileMeta, IoErrorKind>) -> (r: VfsResult<Stat>)
        ensures
            r == (match meta {
                Ok(m) => Ok(stat_of(m)),
                Err(e) => Err(vfs_errno(e)),
            }),
    {
        match meta {
            Ok(m) => Ok(Stat::from_metadata(&m)),
            Err(e) => Err(io_to_errno(e)),
        }
    }

    /// Make `abs` the working directory. `meta` is the host's report on it: whether
    /// it is a directory.
    pub fn chdir(&mut self, abs: GuestPath, meta: Result<bool, IoErrorKind>) -> (r: VfsResult<()>)
        ensures
            final(self).root == old(self).root,
            (r, final(self).cwd@) == chdir_after(old(self).root@, old(self).cwd@, abs@, meta),
            old(self).wf() && all_names(abs@) ==> final(self).wf(),
    {
        if !abs.starts_with(&self.root) {
            return Err(-EACCES);
        }
        match meta {
            Err(e) => Err(io_to_errno(e)),
            Ok(is_dir) => {
                if is_dir {
                    self.cwd = abs;
                    Ok(())
                } else {
                    Err(-ENOTDIR)
                }
            },
        }
    }

    /// Make `abs` the root and the working directory. `meta` is the host's report
    /// on it: whether it is a directory.
    pub fn chroot(&mut self, abs: GuestPath, meta: Result<bool, IoErrorKind>) -> (r: VfsResult<()>)
        ensures
            (r, final(self).root@, final(self).cwd@) == chroot_after(
                old(self).root@,
                old(self).cwd@,
                abs@,
                meta,
            ),
            old(self).wf() && all_names(abs@) ==> final(self).wf(),
    {
        match meta {
            Err(e) => Err(io_to_errno(e)),
            Ok(is_dir) => {
                if is_dir {
                    self.root = abs.copy();
                    self.cwd = abs;
                    Ok(())
                } else {
                    Err(-ENOTDIR)
                }
            },
        }
    }
}

/// A resolved path lies inside the root and is made of proper names: no `.` and no
/// `..` is left in it. So no path leads out of the root.
pub proof fn resolved_stays_inside(
    root: Seq<Seq<u8>>,
    cwd: Seq<Seq<u8>>,
    dirfd: i64,
    path: Seq<u8>,
)
    requires
        all_names(root),
        all_names(cwd),
        is_under(cwd, root),
    ensures
        resolved(root, cwd, dirfd, path) matches Ok(p) ==> is_under(p, root) && all_names(p),
{
    steps_are_steps(path);
    match route(root, cwd, dirfd, path) {
        Ok(c) => {
            assert forall|i: int| 0 <= i < c.len() implies is_step(#[trigger] c[i]) by {
                let n = c.len() - steps(path).len();
                if i >= n {
                    assert(c[i] == steps(path)[i - n]);
                } else if is_absolute(path) {
                    assert(c[i] == root[i]);
                } else {
                    assert(c[i] == cwd[i]);
                }
            }
            walk_stays_among_names(Seq::empty(), c);
        },
        Err(_) => {},
    }
}

/// A relative path of proper names always resolves, to the place below the working
/// directory that it names.
pub proof fn plain_names_resolve(
    root: Seq<Seq<u8>>,
    cwd: Seq<Seq<u8>>,
    path: Seq<u8>,
)
    requires
        all_names(root),
        all_names(cwd),
        is_under(cwd, root),
        !is_absolute(path),
        all_names(steps(path)),
    ensures
        resolved(root, cwd, AT_FDCWD, path) == Ok::<Seq<Seq<u8>>, i64>(cwd + steps(path)),
{
    let c = cwd + steps(path);
    assert forall|i: int| 0 <= i < c.len() implies crate::path::is_name(#[trigger] c[i]) by {
        if i < cwd.len() {
            assert(c[i] == cwd[i]);
        } else {
            assert(c[i] == steps(path)[i - cwd.len()]);
        }
    }
    walk_of_names(Seq::empty(), c);
    assert(Seq::<Seq<u8>>::empty() + c =~= c);
    assert(root =~= c.take(root.len() as int)) by {
        assert(root =~= cwd.take(root.len() as int));
    }
}

/// The text of a place inside the root, such as `getcwd` gives, resolves to that place,
/// wherever the resolving starts.
pub proof fn told_paths_resolve(
    root: Seq<Seq<u8>>,
    cwd: Seq<Seq<u8>>,
    dirfd: i64,
    p: Seq<Seq<u8>>,
)
    requires
        all_names(p),
        is_under(p, root),
    ensures
        resolved(root, cwd, dirfd, path_text(p)) == Ok::<Seq<Seq<u8>>, i64>(p),
{
    steps_of_text(p);
    walk_of_names(Seq::empty(), p);
    assert(Seq::<Seq<u8>>::empty() + p =~= p);
}

/// A path that climbs above the top directory is refused.
pub proof fn climbing_out_is_refused(
    root: Seq<Seq<u8>>,
    c: Seq<Seq<u8>>,
    d: Seq<Seq<u8>>,
)
    requires
        walk(Seq::empty(), c) is None,
    ensures
        confined(root, c + d) == Err::<Seq<Seq<u8>>, i64>((-EACCES) as i64),
{
    walk_in_parts(Seq::empty(), c, d);
}

/// `struct stat` as the guest's C library lays it out.
#[derive(Clone, Copy, PartialEq, Eq, Structural, Debug)]
pub struct Stat {
    pub st_dev: u64,
    pub st_ino: u64,
    pub st_nlink: u64,
    pub st_mode: u32,
    pub st_uid: u32,
    pub st_gid: u32,
    pub st_rdev: u64,
    pub st_size: i64,
    pub st_blksize: i64,
    pub st_blocks: i64,
    pub st_atime: i64,
    pub st_atime_nsec: i64,
    pub st_mtime: i64,
    pub st_mtime_nsec: i64,
    pub st_ctime: i64,
    pub st_ctime_nsec: i64,
}

/// The size of `struct stat`. After `st_gid` there are four bytes of padding.
pub const STAT_SIZE: usize = 120;

/// Seconds and nanoseconds since the epoch. A moment before the epoch counts as
/// second zero and keeps its nanoseconds.
pub open spec fn split_time(t: HostTime) -> (u64, u32) {
    if t.before_epoch {
        (0, t.nanos)
    } else {
        (t.secs, t.nanos)
    }
}

pub fn time_split(t: HostTime) -> (r: (u64, u32))
    ensures
        r == split_time(t),
{
    if t.before_epoch {
        (0, t.nanos)
    } else {
        (t.secs, t.nanos)
    }
}

/// The `d_type` of a directory entry.
pub open spec fn type_code(kind: Option<FileKind>) -> u8 {
    match kind {
        Some(FileKind::Dir) => 4,
        Some(FileKind::File) => 8,
        Some(FileKind::Symlink) => 10,
        Some(FileKind::CharDevice) => 2,
        Some(FileKind::BlockDevice) => 6,
        Some(FileKind::Fifo) => 1,
        Some(FileKind::Socket) => 12,
        _ => 0,
    }
}

fn dirent_type(kind: Option<FileKind>) -> (r: u8)
    ensures
        r == type_code(kind),
{
    match kind {
        Some(FileKind::Dir) => 4,
        Some(FileKind::File) => 8,
        Some(FileKind::Symlink) => 10,
        Some(FileKind::CharDevice) => 2,
        Some(FileKind::BlockDevice) => 6,
        Some(FileKind::Fifo) => 1,
        Some(FileKind::Socket) => 12,
        _ => 0,
    }
}

/// `st_mode`: the permission bits and the type bits. Whatever is neither a
/// directory nor a symbolic link is reported as a regular file.
pub open spec fn mode_bits(kind: FileKind, perm: u32) -> u32 {
    match kind {
        FileKind::Dir => perm & 0o7777 | 0o040000,
        FileKind::Symlink => perm & 0o7777 | 0o120000,
        _ => perm & 0o7777 | 0o100000,
    }
}

fn mode_from(kind: FileKind, perm: u32) -> (r: u32)
    ensures
        r == mode_bits(kind, perm),
{
    match kind {
        FileKind::Dir => perm & 0o7777 | 0o040000,
        FileKind::Symlink => perm & 0o7777 | 0o120000,
        _ => perm & 0o7777 | 0o100000,
    }
}

/// A timestamp, or the epoch where the host keeps none.
pub open spec fn time_or_epoch(t: Option<HostTime>) -> HostTime {
    match t {
        Some(t) => t,
        None => epoch(),
    }
}

/// When the file was made: where the host does not know, when it was modified.
pub open spec fn created_or_modified(m: FileMeta) -> HostTime {
    match m.created {
        Some(t) => t,
        None => time_or_epoch(m.modified),
    }
}

/// How many blocks of 512 bytes hold `len` bytes.
pub open spec fn blocks(len: u64) -> int {
    if len % 512 == 0 {
        len as int / 512
    } else {
        len as int / 512 + 1
    }
}

/// The attributes that the guest sees of a host file.
pub open spec fn stat_of(m: FileMeta) -> Stat {
    Stat {
        st_dev: 0,
        st_ino: m.ino,
        st_nlink: m.nlink,
        st_mode: mode_bits(m.kind, m.perm),
        st_uid: 1000,
        st_gid: 1000,
        st_rdev: 0,
        st_size: int64(m.len as nat) as i64,
        st_blksize: 4096,
        st_blocks: blocks(m.len) as i64,
        st_atime: int64(split_time(time_or_epoch(m.accessed)).0 as nat) as i64,
        st_atime_nsec: split_time(time_or_epoch(m.accessed)).1 as i64,
        st_mtime: int64(split_time(time_or_epoch(m.modified)).0 as nat) as i64,
        st_mtime_nsec: split_time(time_or_epoch(m.modified)).1 as i64,
        st_ctime: int64(split_time(created_or_modified(m)).0 as nat) as i64,
        st_ctime_nsec: split_time(created_or_modified(m)).1 as i64,
    }
}

/// A timestamp, or another where the host keeps none.
fn time_or(t: Option<HostTime>, other: HostTime) -> (r: HostTime)
    ensures
        r == (match t {
            Some(t) => t,
            None => other,
        }),
{
    match t {
        Some(t) => t,
        None => other,
    }
}

impl Stat {
    /// The bytes of the structure, field by field.
    pub open spec fn image(self) -> Seq<u8> {
        Seq::empty() + le(self.st_dev as nat, 8) + le(self.st_ino as nat, 8) + le(
            self.st_nlink as nat,
            8,
        ) + le(self.st_mode as nat, 4) + le(self.st_uid as nat, 4) + le(self.st_gid as nat, 4)
            + zeros(4) + le(self.st_rdev as nat, 8) + le(word64(self.st_size), 8) + le(
            word64(self.st_blksize),
            8,
        ) + le(word64(self.st_blocks), 8) + le(word64(self.st_atime), 8) + le(
            word64(self.st_atime_nsec),
            8,
        ) + le(word64(self.st_mtime), 8) + le(word64(self.st_mtime_nsec), 8) + le(
            word64(self.st_ctime),
            8,
        ) + le(word64(self.st_ctime_nsec), 8)
    }

    /// The guest's attributes of a host file.
    pub fn from_metadata(m: &FileMeta) -> (r: Stat)
        ensures
            r == stat_of(*m),
    {
        let modified: HostTime = time_or(m.modified, HostTime::epoch());
        let (atime, atime_nsec): (u64, u32) = time_split(time_or(m.accessed, HostTime::epoch()));
        let (mtime, mtime_nsec): (u64, u32) = time_split(modified);
        let (ctime, ctime_nsec): (u64, u32) = time_split(time_or(m.created, modified));
        let whole: u64 = m.len / 512;
        let blocks: u64 = if m.len % 512 == 0 {
            whole
        } else {
            whole + 1
        };
        Stat {
            st_dev: 0,
            st_ino: m.ino,
            st_nlink: m.nlink,
            st_mode: mode_from(m.kind, m.perm),
            st_uid: 1000,
            st_gid: 1000,
            st_rdev: 0,
            st_size: to_int64(m.len),
            st_blksize: 4096,
            st_blocks: blocks as i64,
            st_atime: to_int64(atime),
            st_atime_nsec: atime_nsec as i64,
            st_mtime: to_int64(mtime),
            st_mtime_nsec: mtime_nsec as i64,
            st_ctime: to_int64(ctime),
            st_ctime_nsec: ctime_nsec as i64,
        }
    }

    /// Write the structure into guest memory at `ptr`.
    pub fn write_to_guest(self, mem: &mut [u8], ptr: i64) -> (r: Result<(), i64>)
        ensures
            r == bounds_answer(old(mem)@.len(), ptr as int, 120),
            final(mem)@ == written(old(mem)@, ptr as int, self.image()),
            final(mem)@.len() == old(mem)@.len(),
    {
        let b: [u8; 120] = self.encode();
        guest_write(mem, ptr, &b)
    }

    /// The bytes of the structure.
    pub fn encode(self) -> (r: [u8; 120])
        ensures
            r@ == self.image(),
            r@.len() == STAT_SIZE,
    {
        let mut out: Vec<u8> = Vec::new();
        push_le(&mut out, self.st_dev, 8);
        push_le(&mut out, self.st_ino, 8);
        push_le(&mut out, self.st_nlink, 8);
        push_le(&mut out, self.st_mode as u64, 4);
        push_le(&mut out, self.st_uid as u64, 4);
        push_le(&mut out, self.st_gid as u64, 4);
        push_zeros(&mut out, 4);
        push_le(&mut out, self.st_rdev, 8);
        push_le(&mut out, to_word64(self.st_size), 8);
        push_le(&mut out, to_word64(self.st_blksize), 8);
        push_le(&mut out, to_word64(self.st_blocks), 8);
        push_le(&mut out, to_word64(self.st_atime), 8);
        push_le(&mut out, to_word64(self.st_atime_nsec), 8);
        push_le(&mut out, to_word64(self.st_mtime), 8);
        push_le(&mut out, to_word64(self.st_mtime_nsec), 8);
        push_le(&mut out, to_word64(self.st_ctime), 8);
        push_le(&mut out, to_word64(self.st_ctime_nsec), 8);
        let mut buf: [u8; 120] = [0u8; 120];
        copy_into(&mut buf, 0, out.as_slice());
        assert(buf@ =~= self.image());
        buf
    }
}

/// Each field of `struct stat` stands at its offset.
pub proof fn stat_field_offsets(s: Stat)
    ensures
        s.image().len() == 120,
        window(s.image(), 0, 8) == le(s.st_dev as nat, 8),
        window(s.image(), 8, 8) == le(s.st_ino as nat, 8),
        window(s.image(), 16, 8) == le(s.st_nlink as nat, 8),
        window(s.image(), 24, 4) == le(s.st_mode as nat, 4),
        window(s.image(), 28, 4) == le(s.st_uid as nat, 4),
        window(s.image(), 32, 4) == le(s.st_gid as nat, 4),
        window(s.image(), 36, 4) == zeros(4),
        window(s.image(), 40, 8) == le(s.st_rdev as nat, 8),
        window(s.image(), 48, 8) == le(word64(s.st_size), 8),
        window(s.image(), 56, 8) == le(word64(s.st_blksize), 8),
        window(s.image(), 64, 8) == le(word64(s.st_blocks), 8),
        window(s.image(), 72, 8) == le(word64(s.st_atime), 8),
        window(s.image(), 80, 8) == le(word64(s.st_atime_nsec), 8),
        window(s.image(), 88, 8) == le(word64(s.st_mtime), 8),
        window(s.image(), 96, 8) == le(word64(s.st_mtime_nsec), 8),
        window(s.image(), 104, 8) == le(word64(s.st_ctime), 8),
        window(s.image(), 112, 8) == le(word64(s.st_ctime_nsec), 8),
{
}

/// A `linux_dirent64` record.
pub struct Dirent64Record {
    pub ino: u64,
    pub off: i64,
    pub type_: u8,
    pub name: Vec<u8>,
}

/// The size of the fields before the name: inode, offset, record length, type.
pub const DIRENT_FIXED: usize = 19;

/// How many zero bytes follow a name of `n` bytes and its terminator, so that name,
/// terminator and padding together fill whole words of eight bytes.
pub open spec fn dirent_pad(n: nat) -> nat {
    ((8 - (n + 1) % 8) % 8) as nat
}

/// The length of a record whose name has `n` bytes.
pub open spec fn dirent_len(n: nat) -> nat {
    (DIRENT_FIXED + n + 1 + dirent_pad(n)) as nat
}

/// `s` cut off or filled up with zero bytes to length `n`.
pub open spec fn resized(s: Seq<u8>, n: nat) -> Seq<u8> {
    Seq::new(n, |i: int| if i < s.len() { s[i] } else { 0u8 })
}

/// The bytes of a record. The record length is a 16-bit field; it counts modulo
/// 2^16, and the record has the length that the field says.
pub open spec fn dirent_image(ino: u64, off: i64, type_: u8, name: Seq<u8>) -> Seq<u8> {
    let reclen = dirent_len(name.len()) % 0x1_0000;
    resized(
        Seq::empty() + le(ino as nat, 8) + le(word64(off), 8) + le(reclen, 2) + seq![type_] + name,
        reclen,
    )
}

impl Dirent64Record {
    /// The bytes of the record.
    pub fn encode(&self) -> (r: Vec<u8>)
        requires
            self.name@.len() <= usize::MAX - 64,
        ensures
            r@ == dirent_image(self.ino, self.off, self.type_, self.name@),
    {
        let name_len: usize = self.name.len() + 1;
        let pad: usize = (8 - name_len % 8) % 8;
        let reclen: usize = (19 + name_len + pad) % 0x1_0000;
        let mut out: Vec<u8> = Vec::new();
        push_le(&mut out, self.ino, 8);
        push_le(&mut out, to_word64(self.off), 8);
        push_le(&mut out, reclen as u64, 2);
        out.push(self.type_);
        push_bytes(&mut out, self.name.as_slice());
        let ghost full = out@;
        assert(full == Seq::empty() + le(self.ino as nat, 8) + le(word64(self.off), 8) + le(
            reclen as nat,
            2,
        ) + seq![self.type_] + self.name@) by {
            assert(full =~= Seq::empty() + le(self.ino as nat, 8) + le(word64(self.off), 8) + le(
                reclen as nat,
                2,
            ) + seq![self.type_] + self.name@);
        }
        let have: usize = out.len();
        if have > reclen {
            out.truncate(reclen);
        } else {
            push_zeros(&mut out, reclen - have);
        }
        assert(out@ =~= resized(full, reclen as nat));
        out
    }
}

/// A record is as long as its length field says, and holds the name followed by a
/// zero byte and zero padding up to its end.
pub proof fn dirent_layout(ino: u64, off: i64, type_: u8, name: Seq<u8>)
    requires
        dirent_len(name.len()) < 0x1_0000,
    ensures
        ({
            let r = dirent_image(ino, off, type_, name);
            &&& r.len() == dirent_len(name.len())
            &&& window(r, 0, 8) == le(ino as nat, 8)
            &&& window(r, 8, 8) == le(word64(off), 8)
            &&& window(r, 16, 2) == le(r.len(), 2)
            &&& r[18] == type_
            &&& window(r, 19, name.len() as int) == name
            &&& r[19 + name.len() as int] == 0
            &&& forall|i: int| 19 + name.len() <= i < r.len() ==> r[i] == 0
            &&& (r.len() - 19) % 8 == 0
        }),
{
    let n = name.len();
    let r = dirent_image(ino, off, type_, name);
    assert((n + 1 + dirent_pad(n)) % 8 == 0);
    assert(window(r, 0, 8) =~= le(ino as nat, 8));
    assert(window(r, 8, 8) =~= le(word64(off), 8));
    assert(window(r, 16, 2) =~= le(r.len(), 2));
    assert(window(r, 19, n as int) =~= name);
}

/// Whether `a` does not come after `b` in byte order.
pub open spec fn name_le(a: Seq<u8>, b: Seq<u8>) -> bool
    decreases a.len(),
{
    a.len() == 0 || (b.len() > 0 && (a[0] < b[0] || (a[0] == b[0] && name_le(
        a.drop_first(),
        b.drop_first(),
    ))))
}

/// Byte order compares any two names.
pub proof fn name_le_total(a: Seq<u8>, b: Seq<u8>)
    ensures
        name_le(a, b) || name_le(b, a),
    decreases a.len(),
{
    if a.len() > 0 && b.len() > 0 {
        name_le_total(a.drop_first(), b.drop_first());
    }
}

/// Byte order is transitive.
pub proof fn name_le_transitive(a: Seq<u8>, b: Seq<u8>, c: Seq<u8>)
    requires
        name_le(a, b),
        name_le(b, c),
    ensures
        name_le(a, c),
    decreases a.len(),
{
    if a.len() > 0 {
        if a[0] == b[0] && b[0] == c[0] {
            name_le_transitive(a.drop_first(), b.drop_first(), c.drop_first());
        }
    }
}

/// What a listing needs to know of an entry.
pub struct Entry {
    pub name: Seq<u8>,
    pub kind: Option<FileKind>,
    pub ino: u64,
}

/// The entries that a host listing holds.
pub open spec fn entries(v: Seq<DirEntry>) -> Seq<Entry> {
    Seq::new(v.len(), |i: int| Entry { name: v[i].name@, kind: v[i].kind, ino: v[i].ino })
}

/// How many entries at the front of `s` come before or along with `name`.
pub open spec fn rank(s: Seq<Entry>, name: Seq<u8>) -> nat
    decreases s.len(),
{
    if s.len() > 0 && name_le(s[0].name, name) {
        1 + rank(s.drop_first(), name)
    } else {
        0
    }
}

/// `s` in order of names; entries of one name keep their order.
pub open spec fn by_name(s: Seq<Entry>) -> Seq<Entry>
    decreases s.len(),
{
    if s.len() == 0 {
        s
    } else {
        let t = by_name(s.drop_last());
        t.insert(rank(t, s.last().name) as int, s.last())
    }
}

pub open spec fn names_ascend(s: Seq<Entry>) -> bool {
    forall|i: int, j: int|
        0 <= i <= j < s.len() ==> name_le((#[trigger] s[i]).name, (#[trigger] s[j]).name)
}

proof fn rank_bound(s: Seq<Entry>, name: Seq<u8>)
    ensures
        rank(s, name) <= s.len(),
        forall|i: int| 0 <= i < rank(s, name) ==> name_le((#[trigger] s[i]).name, name),
        rank(s, name) < s.len() ==> !name_le(s[rank(s, name) as int].name, name),
    decreases s.len(),
{
    if s.len() > 0 && name_le(s[0].name, name) {
        let t = s.drop_first();
        rank_bound(t, name);
        assert forall|i: int| 0 <= i < rank(s, name) implies name_le((#[trigger] s[i]).name, name) by {
            if i > 0 {
                assert(s[i] == t[i - 1]);
            }
        }
        if rank(s, name) < s.len() {
            assert(s[rank(s, name) as int] == t[rank(t, name) as int]);
        }
    }
}

proof fn rank_is(s: Seq<Entry>, name: Seq<u8>, n: nat)
    requires
        n <= s.len(),
        forall|i: int| 0 <= i < n ==> name_le((#[trigger] s[i]).name, name),
        n < s.len() ==> !name_le(s[n as int].name, name),
    ensures
        rank(s, name) == n,
{
    rank_bound(s, name);
    if rank(s, name) < n {
        assert(name_le(s[rank(s, name) as int].name, name));
    } else if n < rank(s, name) {
        assert(name_le(s[n as int].name, name));
    }
}

proof fn by_name_len(s: Seq<Entry>)
    ensures
        by_name(s).len() == s.len(),
    decreases s.len(),
{
    if s.len() > 0 {
        by_name_len(s.drop_last());
        rank_bound(by_name(s.drop_last()), s.last().name);
    }
}

/// Sorting by name gives the same entries, with the names in ascending order.
pub proof fn by_name_sorts(s: Seq<Entry>)
    ensures
        by_name(s).len() == s.len(),
        by_name(s).to_multiset() == s.to_multiset(),
        names_ascend(by_name(s)),
    decreases s.len(),
{
    broadcast use vstd::seq_lib::group_to_multiset_ensures;

    if s.len() == 0 {
    } else {
        let t = by_name(s.drop_last());
        let e = s.last();
        by_name_sorts(s.drop_last());
        rank_bound(t, e.name);
        let n = rank(t, e.name) as int;
        let u = t.insert(n, e);
        assert(u.remove(n) =~= t);
        assert(u.contains(u[n]));
        assert(u.to_multiset() =~= t.to_multiset().insert(e));
        assert(s =~= s.drop_last().push(e));
        assert(s.to_multiset() =~= s.drop_last().to_multiset().insert(e));
        assert forall|i: int, j: int| 0 <= i <= j < u.len() implies name_le(
            (#[trigger] u[i]).name,
            (#[trigger] u[j]).name,
        ) by {
            name_le_total(e.name, e.name);
            if i < n {
                assert(u[i] == t[i]);
                if j < n {
                    assert(u[j] == t[j]);
                } else if j > n {
                    assert(u[j] == t[j - 1]);
                }
            } else if i == n {
                if j > n {
                    assert(u[j] == t[j - 1]);
                    name_le_total(t[n].name, e.name);
                    assert(name_le(t[n].name, t[j - 1].name));
                    name_le_transitive(e.name, t[n].name, t[j - 1].name);
                }
            } else {
                assert(u[i] == t[i - 1]);
                assert(u[j] == t[j - 1]);
            }
        }
    }
}

/// The records of the entries in `s`, one behind the other. The offset field of a
/// record is where its own record starts, plus the length of its name, plus 24.
pub open spec fn listing(s: Seq<Entry>) -> Seq<u8>
    decreases s.len(),
{
    if s.len() == 0 {
        Seq::empty()
    } else {
        let before = listing(s.drop_last());
        let e = s.last();
        before + dirent_image(
            e.ino,
            (before.len() + e.name.len() + 24) as i64,
            type_code(e.kind),
            e.name,
        )
    }
}

/// An upper bound on the length of a listing.
pub open spec fn listing_bound(s: Seq<DirEntry>) -> nat
    decreases s.len(),
{
    if s.len() == 0 {
        0
    } else {
        listing_bound(s.drop_last()) + s.last().name@.len() + 64
    }
}

/// Whether `a` does not come after `b` in byte order.
fn compare_names(a: &[u8], b: &[u8]) -> (r: bool)
    ensures
        r == name_le(a@, b@),
{
    let n: usize = a.len();
    let m: usize = b.len();
    let mut i: usize = 0;
    assert(a@.skip(0) =~= a@ && b@.skip(0) =~= b@);
    while i < n
        invariant
            i <= n,
            i <= m,
            n == a@.len(),
            m == b@.len(),
            name_le(a@, b@) == name_le(a@.skip(i as int), b@.skip(i as int)),
        decreases n - i,
    {
        if i == m {
            return false;
        }
        assert(a@.skip(i as int).drop_first() =~= a@.skip(i + 1));
        assert(b@.skip(i as int).drop_first() =~= b@.skip(i + 1));
        if a[i] != b[i] {
            return a[i] < b[i];
        }
        i = i + 1;
    }
    true
}

/// The entries in order of names.
fn sort_entries(list: Vec<DirEntry>) -> (r: Vec<DirEntry>)
    ensures
        entries(r@) == by_name(entries(list@)),
        listing_bound(r@) == listing_bound(list@),
{
    let ghost all = list@;
    let mut todo: Vec<DirEntry> = list;
    let mut back: Vec<DirEntry> = Vec::new();
    // Turn the list round, so that its first entry can be taken off the end.
    while todo.len() > 0
        invariant
            todo@ + back@.reverse() == all,
        decreases todo@.len(),
    {
        let ghost t = todo@;
        let ghost b = back@;
        let e: DirEntry = todo.pop().unwrap();
        back.push(e);
        assert(back@.reverse() =~= seq![e] + b.reverse());
        assert(todo@ + back@.reverse() =~= t + b.reverse());
    }
    assert(todo@ + back@.reverse() =~= back@.reverse());
    let mut out: Vec<DirEntry> = Vec::new();
    let ghost done: Seq<DirEntry> = Seq::empty();
    assert(entries(out@) =~= by_name(entries(done)));
    assert(done + back@.reverse() =~= all);
    while back.len() > 0
        invariant
            done + back@.reverse() == all,
            entries(out@) == by_name(entries(done)),
            listing_bound(out@) == listing_bound(done),
        decreases back@.len(),
    {
        let ghost b = back@;
        let ghost d = done;
        let e: DirEntry = back.pop().unwrap();
        proof {
            done = done.push(e);
            assert(b.reverse() =~= seq![e] + back@.reverse());
            assert(done + back@.reverse() =~= d + b.reverse());
            assert(entries(done).drop_last() =~= entries(d));
            assert(done.drop_last() =~= d);
        }
        let mut n: usize = 0;
        while n < out.len() && compare_names(out[n].name.as_slice(), e.name.as_slice())
            invariant
                n <= out@.len(),
                forall|i: int|
                    0 <= i < n ==> name_le((#[trigger] entries(out@)[i]).name, e.name@),
            ensures
                n <= out@.len(),
                forall|i: int|
                    0 <= i < n ==> name_le((#[trigger] entries(out@)[i]).name, e.name@),
                n < out@.len() ==> !name_le(entries(out@)[n as int].name, e.name@),
            decreases out@.len() - n,
        {
            n = n + 1;
        }
        proof {
            rank_is(entries(out@), e.name@, n as nat);
            listing_bound_insert(out@, n as int, e);
            assert(entries(out@.insert(n as int, e)) =~= entries(out@).insert(
                n as int,
                entries(done).last(),
            ));
        }
        out.insert(n, e);
    }
    assert(done =~= all) by {
        assert(back@.reverse() =~= Seq::<DirEntry>::empty());
        assert(done + back@.reverse() =~= done);
    }
    out
}

proof fn listing_bound_insert(s: Seq<DirEntry>, n: int, e: DirEntry)
    requires
        0 <= n <= s.len(),
    ensures
        listing_bound(s.insert(n, e)) == listing_bound(s) + e.name@.len() + 64,
    decreases s.len(),
{
    let t = s.insert(n, e);
    if n == s.len() {
        assert(t.drop_last() =~= s);
    } else {
        assert(t.drop_last() =~= s.drop_last().insert(n, e));
        listing_bound_insert(s.drop_last(), n, e);
    }
}

proof fn listing_bound_prefix(s: Seq<DirEntry>, n: int)
    requires
        0 <= n <= s.len(),
    ensures
        listing_bound(s.take(n)) <= listing_bound(s),
    decreases s.len(),
{
    if n == s.len() {
        assert(s.take(n) =~= s);
    } else {
        assert(s.take(n) =~= s.drop_last().take(n));
        listing_bound_prefix(s.drop_last(), n);
    }
}

/// The records of a directory with these entries, in order of names, or why there are
/// none.
pub open spec fn directory_records(found: Result<Seq<Entry>, IoErrorKind>) -> Result<
    Seq<u8>,
    i64,
> {
    match found {
        Ok(s) => Ok(listing(by_name(s))),
        Err(e) => Err(vfs_errno(e)),
    }
}

/// The entries that the host found.
pub open spec fn found_entries(found: Result<Vec<DirEntry>, IoErrorKind>) -> Result<
    Seq<Entry>,
    IoErrorKind,
> {
    match found {
        Ok(v) => Ok(entries(v@)),
        Err(e) => Err(e),
    }
}

/// Records, taken by their bytes.
pub open spec fn records_view(r: VfsResult<Vec<u8>>) -> Result<Seq<u8>, i64> {
    match r {
        Ok(b) => Ok(b@),
        Err(e) => Err(e),
    }
}

/// Part of the records of a directory, and how many bytes there are in all. There must be
/// room for some.
pub open spec fn directory_page(
    found: Result<Seq<Entry>, IoErrorKind>,
    start: nat,
    len: nat,
) -> Result<(Seq<u8>, nat), i64> {
    if len == 0 {
        Err((-EINVAL) as i64)
    } else {
        match directory_records(found) {
            Ok(all) => Ok((page(all, start, len), all.len())),
            Err(e) => Err(e),
        }
    }
}

impl Vfs {
    /// The records of a whole directory in order of names. `found` is the host's
    /// unordered list of its entries.
    pub fn readdir_all(&self, found: Result<Vec<DirEntry>, IoErrorKind>) -> (r: VfsResult<Vec<u8>>)
        requires
            found matches Ok(v) ==> listing_bound(v@) <= usize::MAX && listing_bound(v@)
                <= i64::MAX,
        ensures
            records_view(r) == directory_records(found_entries(found)),
    {
        let list: Vec<DirEntry> = match found {
            Ok(v) => sort_entries(v),
            Err(e) => {
                return Err(io_to_errno(e));
            },
        };
        let n: usize = list.len();
        let mut out: Vec<u8> = Vec::new();
        let mut i: usize = 0;
        let ghost all = entries(list@);
        assert(all.take(0) =~= Seq::empty());
        while i < n
            invariant
                i <= n,
                n == list@.len(),
                all == entries(list@),
                out@ == listing(all.take(i as int)),
                out@.len() <= listing_bound(list@.take(i as int)),
                listing_bound(list@) <= usize::MAX,
                listing_bound(list@) <= i64::MAX,
            decreases n - i,
        {
            let ghost before = out@;
            proof {
                listing_bound_prefix(list@, i + 1);
                assert(list@.take(i + 1).drop_last() =~= list@.take(i as int));
                assert(all.take(i + 1).drop_last() =~= all.take(i as int));
                assert(all.take(i + 1).last() == all[i as int]);
            }
            let e: &DirEntry = &list[i];
            let rec: Dirent64Record = Dirent64Record {
                ino: e.ino,
                off: out.len() as i64 + e.name.len() as i64 + 24,
                type_: dirent_type(e.kind),
                name: crate::path::copy_bytes(&e.name),
            };
            let b: Vec<u8> = rec.encode();
            push_bytes(&mut out, b.as_slice());
            i = i + 1;
        }
        assert(all.take(n as int) =~= all);
        Ok(out)
    }

    /// At most `len` bytes of the directory's records from byte `start` on, and how
    /// many bytes there are in all.
    pub fn getdents_at(
        &self,
        found: Result<Vec<DirEntry>, IoErrorKind>,
        start: usize,
        len: usize,
    ) -> (r: VfsResult<(Vec<u8>, usize)>)
        requires
            found matches Ok(v) ==> listing_bound(v@) <= usize::MAX && listing_bound(v@)
                <= i64::MAX,
        ensures
            (match r {
                Ok(p) => Ok((p.0@, p.1 as nat)),
                Err(e) => Err(e),
            }) == directory_page(found_entries(found), start as nat, len as nat),
    {
        if len == 0 {
            return Err(-EINVAL);
        }
        match self.readdir_all(found) {
            Ok(all) => {
                let total: usize = all.len();
                let part: Vec<u8> = page_of(&all, start, len);
                Ok((part, total))
            },
            Err(e) => Err(e),
        }
    }

    /// At most `len` bytes from the front of the directory's records.
    pub fn getdents(
        &self,
        found: Result<Vec<DirEntry>, IoErrorKind>,
        len: usize,
    ) -> (r: VfsResult<Vec<u8>>)
        requires
            found matches Ok(v) ==> listing_bound(v@) <= usize::MAX && listing_bound(v@)
                <= i64::MAX,
        ensures
            records_view(r) == (match directory_page(found_entries(found), 0, len as nat) {
                Ok(p) => Ok(p.0),
                Err(e) => Err(e),
            }),
    {
        match self.getdents_at(found, 0, len) {
            Ok((out, _)) => Ok(out),
            Err(e) => Err(e),
        }
    }
}

/// At most `len` bytes of `all` from `start` on.
pub open spec fn page(all: Seq<u8>, start: nat, len: nat) -> Seq<u8> {
    if start >= all.len() {
        Seq::empty()
    } else if start + len <= all.len() {
        window(all, start as int, len as int)
    } else {
        window(all, start as int, all.len() - start)
    }
}

/// At most `len` bytes of `all` from `start` on.
pub fn page_of(all: &Vec<u8>, start: usize, len: usize) -> (r: Vec<u8>)
    ensures
        r@ == page(all@, start as nat, len as nat),
{
    let total: usize = all.len();
    if start >= total {
        return Vec::new();
    }
    let end: usize = if len <= total - start {
        start + len
    } else {
        total
    };
    slice_to_vec(slice_subrange(all.as_slice(), start, end))
}

/// Reading page after page, each from where the last one ended, gives every byte
/// once and in order: a page is what two shorter pages are together, and a page
/// is empty only at the end.
pub proof fn pages_join(all: Seq<u8>, start: nat, len: nat, more: nat)
    ensures
        page(all, start, len) + page(all, start + page(all, start, len).len(), more) == page(
            all,
            start,
            len + more,
        ) || page(all, start, len).len() < len,
        page(all, start, len).len() < len ==> start + page(all, start, len).len() >= all.len(),
        page(all, 0, all.len()) == all,
        len > 0 ==> (page(all, start, len).len() == 0 <==> start >= all.len()),
{
    assert(page(all, 0, all.len()) =~= all);
    if page(all, start, len).len() == len {
        assert(page(all, start, len) + page(all, start + len, more) =~= page(
            all,
            start,
            len + more,
        ));
    }
}

} // verus!
