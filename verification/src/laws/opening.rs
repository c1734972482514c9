//! Opening files, and what the host is asked for by path.

use vstd::prelude::*;
use crate::bytes::int64;
use crate::bytes::le;
use crate::bytes::le_len;
use crate::bytes::le_of_value;
use crate::bytes::le_round_trip;
use crate::bytes::pow256_values;
use crate::bytes::word64;
use crate::errno::EACCES;
use crate::errno::EBADF;
use crate::errno::EFAULT;
use crate::errno::EINVAL;
use crate::errno::ENAMETOOLONG;
use crate::errno::ENOENT;
use crate::errno::ENOSYS;
use crate::errno::ENOTDIR;
use crate::fd::a_number_is_free;
use crate::fd::FdModel;
use crate::fd::Resource;
use crate::host::FileKind;
use crate::host::FileMeta;
use crate::host::HostTime;
use crate::host::IoErrorKind;
use crate::mem::in_bounds;
use crate::mem::is_text;
use crate::mem::splice_reads_back;
use crate::mem::text_at;
use crate::mem::text_is_unique;
use crate::mem::window;
use crate::mem::word_at;
use crate::path::all_names;
use crate::path::is_absolute;
use crate::path::is_dotdot;
use crate::path::is_name;
use crate::path::is_under;
use crate::path::steps;
use crate::path::walk;
use crate::path::walk_in_parts;
use crate::path::walk_of_names;
use crate::sys::file::fstat_told;
use crate::sys::fs::access_answer;
use crate::sys::fs::chmod_request;
use crate::sys::fs::fchmod_request;
use crate::sys::fs::ftruncate_request;
use crate::sys::fs::link_request;
use crate::sys::fs::mkdir_request;
use crate::sys::fs::newfstatat_step;
use crate::sys::fs::open_done_after;
use crate::sys::fs::open_request;
use crate::sys::fs::readlink_told;
use crate::sys::fs::rename_request;
use crate::sys::fs::stat_told;
use crate::sys::fs::symlink_request;
use crate::sys::fs::times_arg;
use crate::sys::fs::truncate_request;
use crate::sys::fs::unlink_request;
use crate::sys::fs::StatModel;
use crate::sys::path::named;
use crate::sys::path::resolve_at;
use crate::vfs::confined;
use crate::vfs::open_options;
use crate::vfs::resolved;
use crate::vfs::stat_field_offsets;
use crate::vfs::stat_of;
use crate::vfs::OpenOptions;
use crate::vfs::Vfs;

verus! {

broadcast use le_len;

/// The access mode of an open, its lowest two bits, says alone whether the file is read
/// and written: zero reads, one writes, two does both, and three is refused. Each other
/// option depends on its own bit alone: the file is made where 0o100 is in the flags, it
/// must be new where 0o200 is there too, its contents go where 0o1000 is there, what is
/// written comes behind them where 0o2000 is there, and only a directory will do where
/// 0o200000 is there.
pub proof fn every_open_flag_counts(flags: i32)
    ensures
        flags & 3 == 3 ==> open_options(flags) == Err::<OpenOptions, i64>(
            (-EINVAL) as i64,
        ),
        flags & 3 != 3 ==> (open_options(flags) matches Ok(o) && {
            &&& o.read <==> flags & 3 != 1
            &&& o.write <==> flags & 3 != 0
            &&& o.create <==> flags & 0o100 != 0
            &&& o.create_new <==> flags & 0o300 == 0o300
            &&& o.truncate <==> flags & 0o1000 != 0
            &&& o.append <==> flags & 0o2000 != 0
            &&& o.directory <==> flags & 0o200000 != 0
        }),
{
    assert(flags & 3 == 0 || flags & 3 == 1 || flags & 3 == 2 || flags & 3 == 3) by (bit_vector);
    assert(flags & 0o300 == 0o300 <==> (flags & 0o100 != 0 && flags & 0o200 != 0)) by (bit_vector);
}

/// Two opens that agree on a bit agree on its option, whatever else they ask for: adding
/// or leaving out one flag changes no other option.
pub proof fn open_flags_do_not_mix(flags: i32, other: i32)
    requires
        flags & 3 != 3,
        other & 3 != 3,
    ensures
        ({
            let (o, p) = (open_options(flags)->Ok_0, open_options(other)->Ok_0);
            &&& flags & 3 == other & 3 ==> o.read == p.read && o.write == p.write
            &&& flags & 0o100 == other & 0o100 ==> o.create == p.create
            &&& flags & 0o300 == other & 0o300 ==> o.create_new == p.create_new
            &&& flags & 0o1000 == other & 0o1000 ==> o.truncate == p.truncate
            &&& flags & 0o2000 == other & 0o2000 ==> o.append == p.append
            &&& flags & 0o200000 == other & 0o200000 ==> o.directory == p.directory
        }),
{
    every_open_flag_counts(flags);
    every_open_flag_counts(other);
}

/// Whether a path was resolved to `p`, or refused with the error `e`.
pub open spec fn comes_to(r: Result<Seq<Seq<u8>>, i64>, p: Seq<Seq<u8>>) -> bool {
    r matches Ok(q) && q == p
}

pub open spec fn fails(r: Result<Seq<Seq<u8>>, i64>, e: int) -> bool {
    r matches Err(x) && x == e
}

/// A path argument is the text up to the first zero byte, at most 4095 bytes of UTF-8.
/// An empty one names nothing, and no text at all is a bad address; any other is resolved.
pub proof fn a_path_is_read_from_memory(
    f: FdModel,
    vfs: Vfs,
    m: Seq<u8>,
    dirfd: i64,
    ptr: i64,
    p: Seq<u8>,
)
    ensures
        is_text(m, ptr as int, 4096, p) && p.len() == 0 ==> fails(
            named(f, vfs, m, dirfd, ptr),
            -ENOENT,
        ),
        is_text(m, ptr as int, 4096, p) && p.len() > 0 ==> named(f, vfs, m, dirfd, ptr)
            == resolve_at(f, vfs.root@, vfs.cwd@, dirfd, p),
        (forall|q: Seq<u8>| !#[trigger] is_text(m, ptr as int, 4096, q)) ==> fails(
            named(f, vfs, m, dirfd, ptr),
            -EFAULT,
        ),
{
    if is_text(m, ptr as int, 4096, p) {
        text_is_unique(m, ptr as int, 4096, p, text_at(m, ptr as int, 4096)->Some_0);
    }
}

/// Where a relative path of plain names leads: from the working directory for the
/// descriptor minus one hundred, and from the directory that the descriptor names for an
/// open one. A descriptor that is not open, that is no directory, or that is another
/// negative number leads nowhere.
pub proof fn relative_paths_start_from_a_directory(
    f: FdModel,
    root: Seq<Seq<u8>>,
    cwd: Seq<Seq<u8>>,
    dirfd: i64,
    path: Seq<u8>,
)
    requires
        f.wf(),
        all_names(root),
        all_names(cwd),
        is_under(cwd, root),
        !is_absolute(path),
        all_names(steps(path)),
    ensures
        ({
            let r = resolve_at(f, root, cwd, dirfd, path);
            &&& dirfd == -100 ==> comes_to(r, cwd + steps(path))
            &&& dirfd < 0 && dirfd != -100 ==> fails(r, -ENOSYS)
            &&& 0 <= dirfd <= u32::MAX ==> match f.at(dirfd as int) {
                None => fails(r, -EBADF),
                Some(Resource::File(n)) => if !f.files[n].is_dir {
                    fails(r, -ENOTDIR)
                } else {
                    match f.files[n].path {
                        None => fails(r, -EACCES),
                        Some(d) => {
                            &&& is_under(d, root) ==> comes_to(r, d + steps(path))
                            &&& !is_under(d + steps(path), root) ==> comes_to(
                                r,
                                root + d + steps(path),
                            )
                        },
                    }
                },
                Some(_) => fails(r, -ENOTDIR),
            }
        }),
{
    let c = steps(path);
    names_stay(root, cwd + c);
    assert(root.is_prefix_of(cwd + c)) by {
        assert(forall|i: int| 0 <= i < root.len() ==> (cwd + c)[i] == cwd[i]);
    }
    if 0 <= dirfd <= u32::MAX {
        if let Some(Resource::File(n)) = f.at(dirfd as int) {
            assert(f.slots.contains_key(dirfd as u32));
            assert(crate::fd::alive(f, f.slots[dirfd as u32].res));
            assert(f.files.contains_key(n));
            if let Some(d) = f.files[n].path {
                assert(crate::fd::proper(f.files[n]));
                names_stay(root, d + c);
                names_stay(root, root + (d + c));
                assert(root + (d + c) =~= root + d + c);
                assert(root.is_prefix_of(root + (d + c)));
                if is_under(d, root) {
                    assert(forall|i: int| 0 <= i < root.len() ==> (d + c)[i] == d[i]);
                    assert(root.is_prefix_of(d + c));
                }
            }
        }
    }
}

proof fn names_stay(root: Seq<Seq<u8>>, c: Seq<Seq<u8>>)
    ensures
        all_names(c) && root.is_prefix_of(c) ==> comes_to(confined(root, c), c),
        all_names(c) ==> walk(Seq::empty(), c) == Some(c),
{
    if all_names(c) {
        walk_of_names(Seq::empty(), c);
        assert(Seq::<Seq<u8>>::empty() + c =~= c);
    }
}

/// An absolute path of plain names leads to itself where it lies under the root, and
/// otherwise under the root, whatever the descriptor.
pub proof fn absolute_paths_start_from_the_root(
    f: FdModel,
    root: Seq<Seq<u8>>,
    cwd: Seq<Seq<u8>>,
    dirfd: i64,
    path: Seq<u8>,
)
    requires
        all_names(root),
        is_absolute(path),
        all_names(steps(path)),
    ensures
        ({
            let r = resolve_at(f, root, cwd, dirfd, path);
            &&& is_under(steps(path), root) ==> comes_to(r, steps(path))
            &&& !is_under(steps(path), root) ==> comes_to(r, root + steps(path))
        }),
{
    let c = steps(path);
    names_stay(root, c);
    names_stay(root, root + c);
    assert(root.is_prefix_of(root + c));
}

/// A name and the step back from it lead nowhere: with or without them, a path comes to
/// the same place.
pub proof fn a_step_back_undoes_a_name(
    root: Seq<Seq<u8>>,
    c: Seq<Seq<u8>>,
    name: Seq<u8>,
    up: Seq<u8>,
    d: Seq<Seq<u8>>,
)
    requires
        is_name(name),
        is_dotdot(up),
    ensures
        confined(root, c + seq![name, up] + d) == confined(root, c + d),
{
    let e = Seq::<Seq<u8>>::empty();
    let two = seq![name, up];
    walk_in_parts(e, c, two + d);
    walk_in_parts(e, c, d);
    assert(c + two + d =~= c + (two + d));
    if let Some(p) = walk(e, c) {
        walk_in_parts(p, two, d);
        reveal_with_fuel(walk, 3);
        assert(two.drop_first() =~= seq![up]);
        assert(two.drop_first().drop_first() =~= Seq::<Seq<u8>>::empty());
        assert(p.push(name).drop_last() =~= p);
        assert(walk(p, two) == Some(p));
    }
}

/// Steps back beyond the start, and any way out of the root, are refused; whatever is
/// allowed lies in the root.
pub proof fn no_path_leaves_the_root(
    root: Seq<Seq<u8>>,
    c: Seq<Seq<u8>>,
)
    ensures
        match confined(root, c) {
            Ok(p) => is_under(p, root) && walk(Seq::empty(), c) == Some(p),
            Err(e) => e == -EACCES && !(walk(Seq::empty(), c) matches Some(p) && is_under(p, root)),
        },
{
}

/// Opening asks the host for the path in the second argument, with the options of the
/// flags in the third. A path that is refused is refused first.
pub proof fn an_open_asks_for_its_path(
    f: FdModel,
    vfs: Vfs,
    m: Seq<u8>,
    a: [i64; 6],
    p: Seq<u8>,
)
    requires
        is_text(m, a[1] as int, 4096, p),
    ensures
        match resolve_at(f, vfs.root@, vfs.cwd@, a[0], p) {
            Err(e) => open_request(f, vfs, m, a) matches Err(x) && x == e,
            Ok(abs) => if (a[2] as i32) & 3 == 3 {
                open_request(f, vfs, m, a) matches Err(x) && x == -EINVAL
            } else {
                open_request(f, vfs, m, a) matches Ok(q) && q.0 == abs && Ok::<OpenOptions, i64>(
                    q.1,
                ) == open_options(a[2] as i32)
            },
        },
{
    text_is_unique(m, a[1] as int, 4096, p, text_at(m, a[1] as int, 4096)->Some_0);
    every_open_flag_counts(a[2] as i32);
}

/// A file that was opened has the lowest free descriptor from three on, its position is
/// its start, and it keeps its path. Every other descriptor and object stays. What is no
/// directory is refused where one was asked for, and the host's error is told.
pub proof fn an_opened_file_starts_at_its_start(
    f: FdModel,
    path: Seq<Seq<u8>>,
    o: OpenOptions,
    opened: Result<bool, IoErrorKind>,
    is_dir: bool,
)
    requires
        f.wf(),
    ensures
        ({
            let (r, g) = open_done_after(f, path, o, opened, is_dir);
            match opened {
                Err(e) => {
                    &&& g == f
                    &&& r == (match e {
                        IoErrorKind::NotFound => -ENOENT,
                        IoErrorKind::PermissionDenied => -EACCES,
                        IoErrorKind::InvalidInput => -EFAULT,
                        IoErrorKind::TooManyLinks => -crate::errno::ELOOP,
                        _ => -crate::errno::EIO,
                    })
                },
                Ok(dir) => if o.directory && !dir {
                    r == -ENOTDIR && g == f
                } else {
                    &&& r >= 3
                    &&& f.at(r) is None
                    &&& forall|k: int| 3 <= k < r ==> #[trigger] f.at(k) is Some
                    &&& g.at(r) matches Some(Resource::File(n)) && {
                        &&& !f.files.contains_key(n)
                        &&& g.files[n].pos == 0
                        &&& g.files[n].path == Some(path)
                        &&& g.files[n].is_dir == is_dir
                        &&& g.files[n].dir_cache is None
                        &&& forall|k: u64| f.files.contains_key(k) ==> #[trigger] g.files[k]
                            == f.files[k]
                    }
                    &&& !g.slots[r as u32].cloexec
                    &&& g.pipes == f.pipes && g.sockets == f.sockets && g.epolls == f.epolls
                        && g.eventfds == f.eventfds
                    &&& forall|k: u32| k != r ==> #[trigger] g.at(k as int) == f.at(k as int)
                },
            }
        }),
{
    a_number_is_free(f, 3);
}

/// Removing asks for a directory to go where 0x200 is in the flags, and for anything else
/// where it is not.
pub proof fn a_removal_says_what_goes(f: FdModel, vfs: Vfs, m: Seq<u8>, a: [i64; 6])
    ensures
        match named(f, vfs, m, a[0], a[1]) {
            Err(e) => unlink_request(f, vfs, m, a) matches Err(x) && x == e,
            Ok(p) => unlink_request(f, vfs, m, a) matches Ok(q) && q.0 == p && q.1 == ((a[2] as i32)
                & 0x200 != 0),
        },
{
}

/// Renaming goes from the first path to the second. The target is kept where the flags
/// hold one, the two change places where they hold two, and no other flag is taken.
pub proof fn a_renaming_keeps_its_direction(
    f: FdModel,
    vfs: Vfs,
    m: Seq<u8>,
    a: [i64; 6],
    p: Seq<u8>,
    q: Seq<u8>,
)
    requires
        is_text(m, a[1] as int, 4096, p),
        is_text(m, a[3] as int, 4096, q),
        p.len() > 0,
        q.len() > 0,
    ensures
        ({
            let from = resolve_at(f, vfs.root@, vfs.cwd@, a[0], p);
            let to = resolve_at(f, vfs.root@, vfs.cwd@, a[2], q);
            let flags = a[4] as i32;
            let r = rename_request(f, vfs, m, a);
            &&& (from matches Err(e) ==> (r matches Err(x) && x == e))
            &&& from is Ok && to is Err ==> (r matches Err(x) && x == to->Err_0)
            &&& from is Ok && to is Ok && flags & !3 != 0 ==> (r matches Err(x) && x == -EINVAL)
            &&& from is Ok && to is Ok && flags & !3 == 0 ==> (r matches Ok(t) && t.0 == from->Ok_0
                && t.1 == to->Ok_0 && t.2 == (flags & 1 != 0) && t.3 == (flags & 2 != 0))
        }),
{
    text_is_unique(m, a[1] as int, 4096, p, text_at(m, a[1] as int, 4096)->Some_0);
    text_is_unique(m, a[3] as int, 4096, q, text_at(m, a[3] as int, 4096)->Some_0);
    let flags = a[4] as i32;
    assert((flags & !(1i32 | 2i32 | 4i32) != 0 || flags & 4 != 0) <==> flags & !3 != 0)
        by (bit_vector);
}

/// A hard link goes from the existing path to the new one, and a symbolic link keeps its
/// text as it is written.
pub proof fn links_keep_their_direction(
    f: FdModel,
    vfs: Vfs,
    m: Seq<u8>,
    old_ptr: i64,
    dirfd: i64,
    new_ptr: i64,
    p: Seq<u8>,
    q: Seq<u8>,
)
    requires
        is_text(m, old_ptr as int, 4096, p),
        is_text(m, new_ptr as int, 4096, q),
        q.len() > 0,
    ensures
        ({
            let to = resolve_at(f, vfs.root@, vfs.cwd@, dirfd, q);
            let r = symlink_request(f, vfs, m, old_ptr, dirfd, new_ptr);
            &&& (to matches Err(e) ==> (r matches Err(x) && x == e))
            &&& (to matches Ok(t) ==> (r matches Ok(l) && l.0 == p && l.1 == t))
        }),
        p.len() > 0 ==> {
            let from = resolve_at(f, vfs.root@, vfs.cwd@, (-100) as i64, p);
            let to = resolve_at(f, vfs.root@, vfs.cwd@, (-100) as i64, q);
            let r = link_request(f, vfs, m, old_ptr, new_ptr);
            from is Ok && to is Ok ==> (r matches Ok(l) && l.0 == from->Ok_0 && l.1 == to->Ok_0)
        },
{
    text_is_unique(m, old_ptr as int, 4096, p, text_at(m, old_ptr as int, 4096)->Some_0);
    text_is_unique(m, new_ptr as int, 4096, q, text_at(m, new_ptr as int, 4096)->Some_0);
}

/// A directory is made with the low nine bits of its mode, and a mode is changed by its
/// low twelve.
pub proof fn modes_are_cut(
    f: FdModel,
    vfs: Vfs,
    m: Seq<u8>,
    dirfd: i64,
    ptr: i64,
    mode: i64,
    a: [i64; 6],
    n: u64,
)
    requires
        0 <= mode <= u32::MAX,
    ensures
        match named(f, vfs, m, dirfd, ptr) {
            Err(e) => {
                &&& mkdir_request(f, vfs, m, dirfd, ptr, mode) matches Err(x) && x == e
                &&& chmod_request(f, vfs, m, dirfd, ptr, mode) matches Err(x) && x == e
            },
            Ok(p) => {
                &&& mkdir_request(f, vfs, m, dirfd, ptr, mode) matches Ok(q) && q.0 == p && q.1
                    == mode % 512
                &&& chmod_request(f, vfs, m, dirfd, ptr, mode) matches Ok(q) && q.0 == p && q.1
                    == mode % 4096
            },
        },
        a[1] == mode && 0 <= a[0] <= u32::MAX && f.at(a[0] as int) == Some(Resource::File(n)) ==> (
        fchmod_request(f, a) matches Ok(q) && q.0 == n && q.1 == mode % 4096),
{
    let x = mode as u32;
    assert(x & 0o777 == x % 512 && x & 0o7777 == x % 4096) by (bit_vector);
}

/// Cutting a file to a length asks for that length; a negative one is refused.
pub proof fn a_length_is_asked_for(f: FdModel, vfs: Vfs, m: Seq<u8>, a: [i64; 6], p: Seq<u8>, n: u64)
    ensures
        is_text(m, a[0] as int, 4096, p) && p.len() > 0 ==> {
            let r = truncate_request(f, vfs, m, a);
            let abs = resolve_at(f, vfs.root@, vfs.cwd@, (-100) as i64, p);
            &&& a[1] < 0 ==> (r matches Err(x) && x == -EINVAL)
            &&& a[1] >= 0 && abs is Ok ==> (r matches Ok(q) && q.0 == abs->Ok_0 && q.1 == a[1])
            &&& a[1] >= 0 && abs is Err ==> (r matches Err(x) && x == abs->Err_0)
        },
        f.at(a[0] as int) == Some(Resource::File(n)) ==> {
            let r = ftruncate_request(f, a);
            &&& a[1] < 0 ==> (r matches Err(x) && x == -EINVAL)
            &&& a[1] >= 0 ==> (r matches Ok(q) && q.0 == n && q.1 == a[1])
        },
        0 <= a[0] <= u32::MAX && a[1] >= 0 && !(f.at(a[0] as int) matches Some(Resource::File(_)))
            ==> (ftruncate_request(f, a) matches Err(x) && x == -EBADF),
{
    if is_text(m, a[0] as int, 4096, p) {
        text_is_unique(m, a[0] as int, 4096, p, text_at(m, a[0] as int, 4096)->Some_0);
    }
}

/// The text of a link is put into the buffer whole, without a zero byte, and the answer
/// is its length. One that does not fit is refused.
pub proof fn a_link_is_told_whole(m: Seq<u8>, ptr: int, len: int, t: Seq<u8>)
    ensures
        ({
            let (r, after) = readlink_told(m, ptr, len, Ok(t));
            &&& t.len() > len ==> r == -ENAMETOOLONG && after == m
            &&& t.len() <= len && !in_bounds(m.len(), ptr, t.len() as int) ==> r == -EFAULT && after
                == m
            &&& t.len() <= len && in_bounds(m.len(), ptr, t.len() as int) ==> {
                &&& r == t.len()
                &&& after.subrange(ptr, ptr + t.len()) == t
                &&& after.len() == m.len()
                &&& forall|j: int|
                    0 <= j < m.len() && !(ptr <= j < ptr + t.len()) ==> #[trigger] after[j] == m[j]
            }
        }),
{
    if in_bounds(m.len(), ptr, t.len() as int) {
        splice_reads_back(m, ptr, t);
    }
}

/// The times that a file gets: that of its last access is the first record of seconds and
/// nanoseconds, that of its last change the second. Without records it is the present.
pub proof fn times_are_read(m: Seq<u8>, ptr: i64)
    ensures
        ({
            let r = times_arg(m, ptr);
            let s1 = int64(word_at(m, ptr as int, 8));
            let n1 = int64(word_at(m, ptr + 8, 8));
            let s2 = int64(word_at(m, ptr + 16, 8));
            let n2 = int64(word_at(m, ptr + 24, 8));
            &&& ptr == 0 ==> (r matches Ok(t) && t is None)
            &&& ptr != 0 && !in_bounds(m.len(), ptr as int, 32) ==> (r matches Err(e) && e
                == -EFAULT)
            &&& ptr != 0 && in_bounds(m.len(), ptr as int, 32) ==> (r matches Ok(Some((x, y))) && {
                &&& 0 <= s1 && 0 <= n1 < 1_000_000_000 ==> !x.before_epoch && x.secs == s1 && x.nanos
                    == n1
                &&& 0 <= s2 && 0 <= n2 < 1_000_000_000 ==> !y.before_epoch && y.secs == s2 && y.nanos
                    == n2
                &&& s1 < 0 || n1 < 0 ==> !x.before_epoch && x.secs == 0 && x.nanos == 0
                &&& s2 < 0 || n2 < 0 ==> !y.before_epoch && y.secs == 0 && y.nanos == 0
            })
        }),
{
    pow256_values();
    if ptr != 0 && in_bounds(m.len(), ptr as int, 32) {
        le_of_value(window(m, ptr as int, 8));
        le_of_value(window(m, ptr + 8, 8));
        le_of_value(window(m, ptr + 16, 8));
        le_of_value(window(m, ptr + 24, 8));
    }
}

/// Access is granted where each way that was asked for is open to someone: reading (4),
/// writing (2), which a read-only file never is, and running (1). Asking for none asks
/// whether the file is there.
pub proof fn access_needs_every_way(mode: i64, meta: FileMeta)
    ensures
        ({
            let want = mode as i32;
            let r = access_answer(mode, Ok(meta));
            let read = want & 4 == 0 || meta.perm & 0o444 != 0;
            let write = want & 2 == 0 || (!meta.readonly && meta.perm & 0o222 != 0);
            let run = want & 1 == 0 || meta.perm & 0o111 != 0;
            &&& want == 0 ==> r == 0
            &&& read && write && run ==> r == 0
            &&& want != 0 && !(read && write && run) ==> r == -EACCES
        }),
{
}

/// What `stat` leaves in the memory: the number of the file, its links, the bits of its
/// mode with those of its type, its owner, its length, its blocks of 512 bytes and its
/// times.
pub open spec fn stat_says(m: Seq<u8>, ptr: int, x: FileMeta) -> bool {
    let kind: int = match x.kind {
        FileKind::Dir => 0o040000,
        FileKind::Symlink => 0o120000,
        _ => 0o100000,
    };
    &&& word_at(m, ptr + 8, 8) == x.ino
    &&& word_at(m, ptr + 16, 8) == x.nlink
    &&& word_at(m, ptr + 24, 4) == kind + x.perm as int % 4096
    &&& word_at(m, ptr + 28, 4) == 1000
    &&& word_at(m, ptr + 32, 4) == 1000
    &&& word_at(m, ptr + 48, 8) == x.len
    &&& word_at(m, ptr + 56, 8) == 4096
    &&& word_at(m, ptr + 64, 8) == (x.len + 511) / 512
    &&& time_said(m, ptr + 72, x.accessed)
    &&& time_said(m, ptr + 88, x.modified)
    &&& time_said(
        m,
        ptr + 104,
        if x.created is Some {
            x.created
        } else {
            x.modified
        },
    )
}

/// Whether the seconds and nanoseconds at `ptr` are this time; a time that is not known
/// is zero, and one before the epoch has no seconds.
pub open spec fn time_said(m: Seq<u8>, ptr: int, t: Option<HostTime>) -> bool {
    match t {
        None => word_at(m, ptr, 8) == 0 && word_at(m, ptr + 8, 8) == 0,
        Some(t) => {
            &&& word_at(m, ptr, 8) == (if t.before_epoch {
                0
            } else {
                t.secs
            })
            &&& word_at(m, ptr + 8, 8) == t.nanos
        },
    }
}

proof fn mode_adds(perm: u32)
    ensures
        perm & 0o7777 | 0o040000 == 0o040000 + perm as int % 4096,
        perm & 0o7777 | 0o120000 == 0o120000 + perm as int % 4096,
        perm & 0o7777 | 0o100000 == 0o100000 + perm as int % 4096,
{
    assert(perm & 0o7777 | 0o040000 == 0o040000 + perm % 4096 && perm & 0o7777 | 0o120000 == 0o120000
        + perm % 4096 && perm & 0o7777 | 0o100000 == 0o100000 + perm % 4096) by (bit_vector);
}

proof fn word_lands(m: Seq<u8>, ptr: int, image: Seq<u8>, off: int, n: nat, x: nat)
    requires
        in_bounds(m.len(), ptr, image.len() as int),
        0 <= off,
        off + n <= image.len(),
        window(image, off, n as int) == le(x, n),
        x < crate::bytes::pow256(n),
    ensures
        word_at(crate::mem::splice(m, ptr, image), ptr + off, n as int) == x,
{
    le_round_trip(x, n);
    assert(window(crate::mem::splice(m, ptr, image), ptr + off, n as int) =~= window(
        image,
        off,
        n as int,
    ));
}

/// `fstat` and `newfstatat` tell what the host knows of a file.
pub proof fn stat_tells_the_file(m: Seq<u8>, ptr: int, x: FileMeta)
    requires
        x.len <= i64::MAX,
        in_bounds(m.len(), ptr, 120),
    ensures
        fstat_told(m, ptr, Some(x)).0 == 0,
        stat_says(fstat_told(m, ptr, Some(x)).1, ptr, x),
        stat_told(m, ptr, Ok(x)) == fstat_told(m, ptr, Some(x)),
        forall|j: int|
            0 <= j < m.len() && !(ptr <= j < ptr + 120) ==> #[trigger] fstat_told(
                m,
                ptr,
                Some(x),
            ).1[j] == m[j],
{
    let s = stat_of(x);
    let image = s.image();
    stat_field_offsets(s);
    pow256_values();
    mode_adds(x.perm);
    word_lands(m, ptr, image, 8, 8, s.st_ino as nat);
    word_lands(m, ptr, image, 16, 8, s.st_nlink as nat);
    word_lands(m, ptr, image, 24, 4, s.st_mode as nat);
    word_lands(m, ptr, image, 28, 4, s.st_uid as nat);
    word_lands(m, ptr, image, 32, 4, s.st_gid as nat);
    word_lands(m, ptr, image, 48, 8, word64(s.st_size));
    word_lands(m, ptr, image, 56, 8, word64(s.st_blksize));
    word_lands(m, ptr, image, 64, 8, word64(s.st_blocks));
    word_lands(m, ptr, image, 72, 8, word64(s.st_atime));
    word_lands(m, ptr, image, 80, 8, word64(s.st_atime_nsec));
    word_lands(m, ptr, image, 88, 8, word64(s.st_mtime));
    word_lands(m, ptr, image, 96, 8, word64(s.st_mtime_nsec));
    word_lands(m, ptr, image, 104, 8, word64(s.st_ctime));
    word_lands(m, ptr, image, 112, 8, word64(s.st_ctime_nsec));
    assert(crate::vfs::blocks(x.len) == (x.len + 511) / 512);
}

/// `newfstatat` asks about the path, or, for an empty path where 0x1000 is in the flags,
/// about the descriptor itself; an empty path without it names nothing.
pub proof fn stat_asks_about_the_path(
    f: FdModel,
    vfs: Vfs,
    m: Seq<u8>,
    a: [i64; 6],
    p: Seq<u8>,
)
    requires
        is_text(m, a[1] as int, 4096, p),
    ensures
        ({
            let r = newfstatat_step(f, vfs, m, a);
            &&& p.len() == 0 && (a[3] as i32) & 0x1000 != 0 ==> r == StatModel::Descriptor
            &&& p.len() == 0 && (a[3] as i32) & 0x1000 == 0 ==> r == StatModel::Done(-ENOENT)
            &&& p.len() > 0 ==> match resolve_at(f, vfs.root@, vfs.cwd@, a[0], p) {
                Ok(abs) => r == StatModel::Path(abs),
                Err(e) => r == StatModel::Done(e as int),
            }
        }),
{
    text_is_unique(m, a[1] as int, 4096, p, text_at(m, a[1] as int, 4096)->Some_0);
}

} // verus!
