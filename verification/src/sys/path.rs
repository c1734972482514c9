//! Where `(dirfd, path)` leads.
//!
//! An absolute path, and a path relative to the working directory, resolve in the
//! file-system view. A path relative to a directory that is open under `dirfd`
//! starts at the path of that directory. No other negative `dirfd` is known.

use vstd::prelude::*;
use crate::errno::EACCES;
use crate::errno::EBADF;
use crate::errno::EFAULT;
use crate::errno::ENOENT;
use crate::errno::ENOSYS;
use crate::errno::ENOTDIR;
use crate::fd::proper;
use crate::fd::FdModel;
use crate::fd::FdTable;
use crate::fd::FilePos;
use crate::fd::Resource;
use crate::fd::AT_FDCWD;
use crate::mem::guest_str;
use crate::mem::text_at;
use crate::path::all_names;
use crate::path::is_absolute;
use crate::path::is_step;
use crate::path::is_under;
use crate::path::split_steps;
use crate::path::steps;
use crate::path::steps_are_steps;
use crate::path::walk_stays_among_names;
use crate::path::GuestPath;
use crate::path::SLASH;
use crate::sys::file::PATH_MAX;
use crate::vfs::confined;
use crate::vfs::path_result;
use crate::vfs::resolved;
use crate::vfs::resolved_stays_inside;
use crate::vfs::Vfs;
use crate::vfs::VfsResult;

verus! {

/// The path of the directory that `fd` names.
pub open spec fn dir_path(f: FdModel, fd: u32) -> Result<Seq<Seq<u8>>, i64> {
    match f.at(fd as int) {
        Some(Resource::File(n)) => if !f.files[n].is_dir {
            Err((-ENOTDIR) as i64)
        } else {
            match f.files[n].path {
                Some(p) => Ok(p),
                None => Err((-EACCES) as i64),
            }
        },
        Some(_) => Err((-ENOTDIR) as i64),
        None => Err((-EBADF) as i64),
    }
}

/// Where the absolute path made of the steps `c` leads. It starts at the root if it
/// does not spell out the root.
pub open spec fn rooted(root: Seq<Seq<u8>>, c: Seq<Seq<u8>>) -> Result<Seq<Seq<u8>>, i64> {
    if is_under(c, root) {
        confined(root, c)
    } else {
        confined(root, root + c)
    }
}

/// Where `(dirfd, path)` leads.
pub open spec fn resolve_at(
    f: FdModel,
    root: Seq<Seq<u8>>,
    cwd: Seq<Seq<u8>>,
    dirfd: i64,
    path: Seq<u8>,
) -> Result<Seq<Seq<u8>>, i64> {
    if is_absolute(path) || dirfd == AT_FDCWD {
        resolved(root, cwd, dirfd, path)
    } else if dirfd >= 0 {
        match dir_path(f, dirfd as u32) {
            Ok(dir) => rooted(root, dir + steps(path)),
            Err(e) => Err(e),
        }
    } else {
        Err((-ENOSYS) as i64)
    }
}

/// Whether `p` is a proper path inside the root.
pub open spec fn inside(vfs: Vfs, p: Seq<Seq<u8>>) -> bool {
    is_under(p, vfs.root@) && all_names(p)
}

/// A path that was resolved in a proper tree is proper and lies inside the root.
pub open spec fn kept_inside(vfs: Vfs, r: VfsResult<GuestPath>) -> bool {
    vfs.wf() ==> (r matches Ok(p) ==> inside(vfs, p@))
}

/// Where `(dirfd, path)` leads.
pub fn resolve(fds: &FdTable, vfs: &Vfs, dirfd: i64, path: &[u8]) -> (r: VfsResult<GuestPath>)
    requires
        fds@.wf(),
    ensures
        path_result(r) == resolve_at(fds@, vfs.root@, vfs.cwd@, dirfd, path@),
        kept_inside(*vfs, r),
{
    proof {
        if vfs.wf() {
            resolve_stays_inside(fds@, vfs.root@, vfs.cwd@, dirfd, path@);
        }
    }
    let absolute: bool = path.len() > 0 && path[0] == SLASH;
    if absolute || dirfd == AT_FDCWD {
        return resolve_via_cwd_or_root(vfs, dirfd, path);
    }
    if dirfd >= 0 {
        return resolve_via_dirfd(fds, vfs, dirfd as u32, path);
    }
    Err(-ENOSYS)
}

fn resolve_via_cwd_or_root(vfs: &Vfs, dirfd: i64, path: &[u8]) -> (r: VfsResult<GuestPath>)
    ensures
        path_result(r) == resolved(vfs.root@, vfs.cwd@, dirfd, path@),
{
    vfs.resolve_path(dirfd, path)
}

/// Where `path` leads from the directory that `dirfd` names.
pub fn resolve_via_dirfd(fds: &FdTable, vfs: &Vfs, dirfd: u32, path: &[u8]) -> (r: VfsResult<
    GuestPath,
>)
    requires
        fds@.wf(),
    ensures
        path_result(r) == (match dir_path(fds@, dirfd) {
            Ok(dir) => rooted(vfs.root@, dir + steps(path@)),
            Err(e) => Err(e),
        }),
{
    let n: u64 = match fds.get(dirfd) {
        Ok(Resource::File(n)) => n,
        Ok(_) => {
            return Err(-ENOTDIR);
        },
        Err(_) => {
            return Err(-EBADF);
        },
    };
    let p: &FilePos = fds.file(n);
    if !p.is_dir {
        return Err(-ENOTDIR);
    }
    let mut joined: GuestPath = match &p.path {
        Some(d) => d.copy(),
        None => {
            return Err(-EACCES);
        },
    };
    let rest: GuestPath = split_steps(path);
    joined.append(&rest);
    if joined.starts_with(&vfs.root) {
        vfs.normalize(joined)
    } else {
        let mut from: GuestPath = vfs.root.copy();
        from.append(&joined);
        vfs.normalize(from)
    }
}

/// However a path is given, it leads to a place inside the root, and nothing of
/// `.` or `..` is left in the result.
pub proof fn resolve_stays_inside(
    f: FdModel,
    root: Seq<Seq<u8>>,
    cwd: Seq<Seq<u8>>,
    dirfd: i64,
    path: Seq<u8>,
)
    requires
        f.wf(),
        all_names(root),
        all_names(cwd),
        is_under(cwd, root),
    ensures
        resolve_at(f, root, cwd, dirfd, path) matches Ok(p) ==> is_under(p, root) && all_names(p),
{
    if is_absolute(path) || dirfd == AT_FDCWD {
        resolved_stays_inside(root, cwd, dirfd, path);
    } else if dirfd >= 0 {
        match dir_path(f, dirfd as u32) {
            Ok(dir) => {
                assert(all_names(dir)) by {
                    let fd = dirfd as u32;
                    assert(f.slots.contains_key(fd));
                    let n = f.slots[fd].res->File_0;
                    assert(f.files.contains_key(n));
                    assert(proper(f.files[n]));
                }
                steps_are_steps(path);
                let c = dir + steps(path);
                let d = root + c;
                assert forall|i: int| 0 <= i < c.len() implies is_step(#[trigger] c[i]) by {
                    if i < dir.len() {
                        assert(c[i] == dir[i]);
                    } else {
                        assert(c[i] == steps(path)[i - dir.len()]);
                    }
                }
                assert forall|i: int| 0 <= i < d.len() implies is_step(#[trigger] d[i]) by {
                    if i < root.len() {
                        assert(d[i] == root[i]);
                    } else {
                        assert(d[i] == c[i - root.len()]);
                    }
                }
                walk_stays_among_names(Seq::empty(), c);
                walk_stays_among_names(Seq::empty(), d);
            },
            Err(_) => {},
        }
    }
}

/// The path text at `ptr`.
pub open spec fn path_arg(m: Seq<u8>, ptr: i64) -> Option<Seq<u8>> {
    text_at(m, ptr as int, PATH_MAX as int)
}

/// Where the path at `ptr` leads from `dirfd`. An empty path leads nowhere.
pub open spec fn named(
    f: FdModel,
    vfs: Vfs,
    m: Seq<u8>,
    dirfd: i64,
    ptr: i64,
) -> Result<Seq<Seq<u8>>, i64> {
    match path_arg(m, ptr) {
        None => Err((-EFAULT) as i64),
        Some(p) => if p.len() == 0 {
            Err((-ENOENT) as i64)
        } else {
            resolve_at(f, vfs.root@, vfs.cwd@, dirfd, p)
        },
    }
}

/// Where the path at `ptr` leads from `dirfd`.
pub fn named_path(fds: &FdTable, vfs: &Vfs, mem: &[u8], dirfd: i64, ptr: i64) -> (r: VfsResult<
    GuestPath,
>)
    requires
        fds@.wf(),
    ensures
        path_result(r) == named(fds@, *vfs, mem@, dirfd, ptr),
        kept_inside(*vfs, r),
{
    let path: Vec<u8> = match guest_str(mem, ptr, PATH_MAX) {
        Ok(s) => s,
        Err(e) => {
            return Err(e);
        },
    };
    if path.len() == 0 {
        return Err(-ENOENT);
    }
    resolve(fds, vfs, dirfd, path.as_slice())
}

} // verus!
