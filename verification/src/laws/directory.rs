//! Directories: moving between them, and what they list. What is told of a file.

use vstd::prelude::*;
use crate::bytes::le;
use crate::bytes::le_len;
use crate::bytes::le_round_trip;
use crate::bytes::pow256;
use crate::bytes::pow256_values;
use crate::bytes::word64;
use crate::fd::FdModel;
use crate::fd::Resource;
use crate::host::FileKind;
use crate::host::FileMeta;
use crate::host::HostTime;
use crate::host::IoErrorKind;
use crate::mem::in_bounds;
use crate::mem::is_text;
use crate::mem::splice;
use crate::mem::text_at;
use crate::mem::text_is_unique;
use crate::mem::window;
use crate::mem::word_at;
use crate::sys::file::char_device;
use crate::sys::file::file_errno;
use crate::sys::file::fstat_after;
use crate::sys::file::statx_field_offsets;
use crate::sys::file::statx_of;
use crate::sys::file::FstatStep;
use crate::sys::fs::readlink_path;
use crate::sys::fs::rename_verdict;
use crate::sys::fs::replied;
use crate::sys::fs::statx_of_file_after;
use crate::sys::fs::statx_of_path_after;
use crate::sys::fs::statx_step;
use crate::sys::fs::times_arg;
use crate::sys::fs::utimensat_request;
use crate::sys::fs::StatxModel;
use crate::sys::path::named;
use crate::sys::path::resolve_at;
use crate::vfs::by_name;
use crate::vfs::by_name_sorts;
use crate::vfs::chdir_after;
use crate::vfs::chroot_after;
use crate::vfs::directory_page;
use crate::vfs::directory_records;
use crate::vfs::dirent_image;
use crate::vfs::dirent_layout;
use crate::vfs::listing;
use crate::vfs::name_le;
use crate::vfs::opened_verdict;
use crate::vfs::stat_field_offsets;
use crate::vfs::stat_of;
use crate::vfs::vfs_errno;
use crate::vfs::Entry;
use crate::vfs::OpenOptions;
use crate::vfs::Vfs;

verus! {

broadcast use le_len;

/// The working directory becomes the new one exactly where that lies inside the root and
/// the host says that it is a directory; otherwise it stays.
pub proof fn a_directory_becomes_the_working_one(
    root: Seq<Seq<u8>>,
    cwd: Seq<Seq<u8>>,
    abs: Seq<Seq<u8>>,
    meta: Result<bool, IoErrorKind>,
)
    ensures
        ({
            let (r, now) = chdir_after(root, cwd, abs, meta);
            let inside = root.len() <= abs.len() && abs.take(root.len() as int) == root;
            &&& r is Ok <==> inside && meta == Ok::<bool, IoErrorKind>(true)
            &&& r is Ok ==> now == abs
            &&& r is Err ==> now == cwd
            &&& !inside ==> (r matches Err(e) && e == -13)
            &&& inside && meta == Ok::<bool, IoErrorKind>(false) ==> (r matches Err(e) && e == -20)
            &&& inside && meta == Err::<bool, IoErrorKind>(IoErrorKind::NotFound) ==> (r matches Err(
                e,
            ) && e == -2)
        }),
{
}

/// A new root is the working directory too, and it must be a directory; otherwise both
/// stay.
pub proof fn a_directory_becomes_the_root(
    root: Seq<Seq<u8>>,
    cwd: Seq<Seq<u8>>,
    abs: Seq<Seq<u8>>,
    meta: Result<bool, IoErrorKind>,
)
    ensures
        ({
            let (r, new_root, new_cwd) = chroot_after(root, cwd, abs, meta);
            &&& r is Ok <==> meta == Ok::<bool, IoErrorKind>(true)
            &&& r is Ok ==> new_root == abs && new_cwd == abs
            &&& r is Err ==> new_root == root && new_cwd == cwd
            &&& meta == Ok::<bool, IoErrorKind>(false) ==> (r matches Err(e) && e == -20)
        }),
{
}

/// A file that the host opened is refused only where a directory was asked for and it is
/// none; the answer says whether it is one.
pub proof fn an_opened_file_is_what_was_asked_for(
    options: OpenOptions,
    opened: Result<bool, IoErrorKind>,
)
    ensures
        ({
            let r = opened_verdict(options, opened);
            &&& opened matches Ok(is_dir) ==> (is_dir || !options.directory ==> r == Ok::<bool, i64>(
                is_dir,
            ))
            &&& opened == Ok::<bool, IoErrorKind>(false) && options.directory ==> (r matches Err(e)
                && e == -20)
            &&& opened is Err ==> r is Err
        }),
{
}

/// The numbers of the errors that the host reports.
pub proof fn host_errors_have_numbers(e: IoErrorKind)
    ensures
        vfs_errno(e) < 0,
        replied(Err(e)) == -file_errno(e),
        replied(Ok(())) == 0,
        file_errno(e) == (match e {
            IoErrorKind::NotFound => 2int,
            IoErrorKind::PermissionDenied => 13,
            IoErrorKind::AlreadyExists => 17,
            IoErrorKind::InvalidInput => 22,
            IoErrorKind::NotADirectory => 20,
            IoErrorKind::IsADirectory => 21,
            IoErrorKind::DirectoryNotEmpty => 39,
            IoErrorKind::TooManyLinks => 40,
            IoErrorKind::Other => 5,
        }),
        vfs_errno(e) == -(match e {
            IoErrorKind::NotFound => 2int,
            IoErrorKind::PermissionDenied => 13,
            IoErrorKind::InvalidInput => 14,
            IoErrorKind::TooManyLinks => 40,
            _ => 5,
        }),
{
}

/// A directory lists its entries in the order of their names, each once: the records of
/// the entries before one, then its own. A record holds the number of the file, its own
/// length, the type and the name with a zero behind it.
pub proof fn a_directory_lists_its_entries(s: Seq<Entry>, i: int)
    requires
        0 <= i < s.len(),
        forall|k: int| 0 <= k < s.len() ==> (#[trigger] by_name(s)[k]).name.len() < 60000,
    ensures
        ({
            let t = by_name(s);
            let all = directory_records(Ok(s))->Ok_0;
            let at = listing(t.take(i)).len() as int;
            let e = t[i];
            let len = word_at(all, at + 16, 2);
            &&& directory_records(Ok(s)) is Ok
            &&& t.to_multiset() == s.to_multiset()
            &&& i + 1 < s.len() ==> name_le(t[i].name, t[i + 1].name)
            &&& at + len <= all.len()
            &&& listing(t.take(i + 1)).len() == at + len
            &&& word_at(all, at, 8) == e.ino
            &&& all[at + 18] == (match e.kind {
                Some(FileKind::Fifo) => 1u8,
                Some(FileKind::CharDevice) => 2,
                Some(FileKind::Dir) => 4,
                Some(FileKind::BlockDevice) => 6,
                Some(FileKind::File) => 8,
                Some(FileKind::Symlink) => 10,
                Some(FileKind::Socket) => 12,
                _ => 0,
            })
            &&& len > 19 + e.name.len()
            &&& all.subrange(at + 19, at + 19 + e.name.len()) == e.name
            &&& all[at + 19 + e.name.len()] == 0
        }),
{
    by_name_sorts(s);
    let t = by_name(s);
    let e = t[i];
    let before = listing(t.take(i));
    assert(t.take(i + 1).drop_last() =~= t.take(i));
    assert(t.take(i + 1).last() == e);
    let off = (before.len() + e.name.len() + 24) as i64;
    let code = crate::vfs::type_code(e.kind);
    let rec = dirent_image(e.ino, off, code, e.name);
    assert(e.name.len() < 60000);
    dirent_layout(e.ino, off, code, e.name);
    assert(listing(t.take(i + 1)) == before + rec);
    listing_prefix(t, i + 1);
    assert(t.take(t.len() as int) =~= t);
    let all = listing(t);
    let at = before.len() as int;
    pow256_values();
    le_round_trip(e.ino as nat, 8);
    le_round_trip(rec.len(), 2);
    assert(forall|k: int| 0 <= k < rec.len() ==> all[at + k] == #[trigger] rec[k]) by {
        assert forall|k: int| 0 <= k < rec.len() implies all[at + k] == #[trigger] rec[k] by {
            assert(listing(t.take(i + 1))[at + k] == rec[k]);
        }
    }
    assert(window(all, at, 8) =~= window(rec, 0, 8));
    assert(window(all, at + 16, 2) =~= window(rec, 16, 2));
    assert(rec[18] == code);
    assert(all.subrange(at + 19, at + 19 + e.name.len()) =~= window(rec, 19, e.name.len() as int));
    assert(rec[19 + e.name.len() as int] == 0);
}

proof fn listing_prefix(t: Seq<Entry>, n: int)
    requires
        0 <= n <= t.len(),
    ensures
        listing(t.take(n)).len() <= listing(t).len(),
        forall|k: int| 0 <= k < listing(t.take(n)).len() ==> listing(t)[k] == #[trigger] listing(
            t.take(n),
        )[k],
    decreases t.len() - n,
{
    if n < t.len() {
        listing_prefix(t, n + 1);
        assert(t.take(n + 1).drop_last() =~= t.take(n));
        assert forall|k: int| 0 <= k < listing(t.take(n)).len() implies listing(t)[k]
            == #[trigger] listing(t.take(n))[k] by {
            assert(listing(t.take(n + 1))[k] == listing(t.take(n))[k]);
        }
    } else {
        assert(t.take(n) =~= t);
    }
}

/// An empty directory lists nothing, and a directory that the host cannot list is its
/// error.
pub proof fn an_empty_directory_lists_nothing(e: IoErrorKind)
    ensures
        directory_records(Ok(Seq::empty())) == Ok::<Seq<u8>, i64>(Seq::empty()),
        directory_records(Err(e)) == Err::<Seq<u8>, i64>(vfs_errno(e)),
{
}

/// Part of a listing: the bytes from its start on, no more than there is room for, and
/// the length of the whole.
pub proof fn part_of_a_directory_is_listed(s: Seq<Entry>, start: nat, len: nat, k: int)
    ensures
        ({
            let all = directory_records(Ok(s))->Ok_0;
            let r = directory_page(Ok(s), start, len);
            let left = if start < all.len() {
                all.len() - start
            } else {
                0
            };
            &&& len == 0 ==> (r matches Err(e) && e == -22)
            &&& len > 0 ==> (r matches Ok(p) && p.1 == all.len() && p.0.len() == (if len < left {
                len as int
            } else {
                left
            }) && (0 <= k < p.0.len() ==> p.0[k] == all[start + k]))
        }),
{
}

/// `fstat` asks the host about a file. What else is open is told as a character device
/// with one link, that anyone may read and write.
pub proof fn fstat_asks_about_the_file(f: FdModel, m: Seq<u8>, a: [i64; 6])
    ensures
        ({
            let (step, after) = fstat_after(f, m, a);
            let p = a[1] as int;
            match f.at(a[0] as int) {
                None => step == FstatStep::Done((-9) as i64) && after == m,
                Some(Resource::File(n)) => step == (FstatStep::Meta { file: n }) && after == m,
                Some(_) => {
                    &&& !in_bounds(m.len(), p, 120) ==> step == FstatStep::Done((-14) as i64) && after
                        == m
                    &&& in_bounds(m.len(), p, 120) ==> {
                        &&& step == FstatStep::Done(0)
                        &&& word_at(after, p + 16, 8) == 1
                        &&& word_at(after, p + 24, 4) == 0o020666
                        &&& word_at(after, p + 28, 4) == 1000
                        &&& word_at(after, p + 32, 4) == 1000
                        &&& word_at(after, p + 48, 8) == 0
                        &&& forall|j: int|
                            0 <= j < m.len() && !(p <= j < p + 120) ==> #[trigger] after[j] == m[j]
                    }
                },
            }
        }),
{
    let c = char_device();
    stat_field_offsets(c);
    pow256_values();
    let p = a[1] as int;
    if in_bounds(m.len(), p, 120) {
        lands(m, p, c.image(), 16, 8, 1);
        lands(m, p, c.image(), 24, 4, 0o020666);
        lands(m, p, c.image(), 28, 4, 1000);
        lands(m, p, c.image(), 32, 4, 1000);
        lands(m, p, c.image(), 48, 8, 0);
    }
}

proof fn lands(m: Seq<u8>, ptr: int, image: Seq<u8>, off: int, n: nat, x: nat)
    requires
        in_bounds(m.len(), ptr, image.len() as int),
        0 <= off,
        off + n <= image.len(),
        window(image, off, n as int) == le(x, n),
        x < pow256(n),
    ensures
        word_at(splice(m, ptr, image), ptr + off, n as int) == x,
{
    le_round_trip(x, n);
    assert(window(splice(m, ptr, image), ptr + off, n as int) =~= window(image, off, n as int));
}

/// Whether the seconds and nanoseconds at `ptr` are this time; a time that is not known
/// is zero, and one before the epoch has no seconds.
pub open spec fn moment_said(m: Seq<u8>, ptr: int, t: Option<HostTime>) -> bool {
    match t {
        None => word_at(m, ptr, 8) == 0 && word_at(m, ptr + 8, 8) == 0,
        Some(t) => {
            &&& word_at(m, ptr, 8) == (if t.before_epoch {
                0
            } else {
                t.secs
            })
            &&& t.nanos < 1_000_000_000 ==> word_at(m, ptr + 8, 8) == t.nanos
        },
    }
}

/// What `statx` leaves in the memory: the links of the file, its owner, the bits of its
/// mode with those of its type, its number, its length, its blocks of 512 bytes and its
/// times.
pub open spec fn statx_says(m: Seq<u8>, ptr: int, x: FileMeta) -> bool {
    let kind: int = match x.kind {
        FileKind::Dir => 0o040000,
        FileKind::Symlink => 0o120000,
        _ => 0o100000,
    };
    &&& word_at(m, ptr + 4, 4) == 4096
    &&& word_at(m, ptr + 16, 8) == x.nlink
    &&& word_at(m, ptr + 24, 4) == 1000
    &&& word_at(m, ptr + 28, 4) == 1000
    &&& word_at(m, ptr + 32, 2) == kind + x.perm as int % 4096
    &&& word_at(m, ptr + 40, 8) == x.ino
    &&& word_at(m, ptr + 48, 8) == x.len
    &&& word_at(m, ptr + 56, 8) == (x.len + 511) / 512
    &&& moment_said(m, ptr + 72, x.accessed)
    &&& moment_said(
        m,
        ptr + 104,
        if x.created is Some {
            x.created
        } else {
            x.modified
        },
    )
    &&& moment_said(m, ptr + 120, x.modified)
}

/// The end of `statx` tells what the host knows of the file, and touches no other byte. A
/// file that the host does not know is refused, and so is a place outside of the memory.
#[verifier::rlimit(60)]
pub proof fn statx_tells_the_file(m: Seq<u8>, ptr: int, x: FileMeta, j: int)
    requires
        x.len <= i64::MAX,
        0 <= j < m.len(),
    ensures
        statx_of_path_after(m, ptr, Ok(x)) == statx_of_file_after(m, ptr, Some(x)),
        statx_of_file_after(m, ptr, None) == (-13int, m),
        statx_of_path_after(m, ptr, Err(IoErrorKind::NotFound)) == (-2int, m),
        !in_bounds(m.len(), ptr, 256) ==> statx_of_file_after(m, ptr, Some(x)) == (-14int, m),
        in_bounds(m.len(), ptr, 256) ==> {
            &&& statx_of_file_after(m, ptr, Some(x)).0 == 0
            &&& statx_says(statx_of_file_after(m, ptr, Some(x)).1, ptr, x)
            &&& !(ptr <= j < ptr + 256) ==> statx_of_file_after(m, ptr, Some(x)).1[j] == m[j]
        },
{
    let s = statx_of(stat_of(x));
    let image = s.image();
    statx_field_offsets(s);
    pow256_values();
    modes(x.perm);
    if in_bounds(m.len(), ptr, 256) {
        lands(m, ptr, image, 4, 4, s.stx_blksize as nat);
        lands(m, ptr, image, 16, 8, s.stx_nlink as nat);
        lands(m, ptr, image, 24, 4, s.stx_uid as nat);
        lands(m, ptr, image, 28, 4, s.stx_gid as nat);
        lands(m, ptr, image, 32, 2, s.stx_mode as nat);
        lands(m, ptr, image, 40, 8, s.stx_ino as nat);
        lands(m, ptr, image, 48, 8, s.stx_size as nat);
        lands(m, ptr, image, 56, 8, s.stx_blocks as nat);
        lands(m, ptr, image, 72, 8, word64(s.stx_atime_sec));
        lands(m, ptr, image, 80, 8, word64(s.stx_atime_nsec));
        lands(m, ptr, image, 104, 8, word64(s.stx_ctime_sec));
        lands(m, ptr, image, 112, 8, word64(s.stx_ctime_nsec));
        lands(m, ptr, image, 120, 8, word64(s.stx_mtime_sec));
        lands(m, ptr, image, 128, 8, word64(s.stx_mtime_nsec));
        assert(crate::vfs::blocks(x.len) == (x.len + 511) / 512);
    }
}

proof fn modes(perm: u32)
    ensures
        ((perm & 0o7777 | 0o040000) & 0xffff) as u16 == 0o040000 + perm as int % 4096,
        ((perm & 0o7777 | 0o120000) & 0xffff) as u16 == 0o120000 + perm as int % 4096,
        ((perm & 0o7777 | 0o100000) & 0xffff) as u16 == 0o100000 + perm as int % 4096,
{
    assert(((perm & 0o7777 | 0o040000) & 0xffff) as u16 == 0o040000 + perm % 4096 && ((perm & 0o7777
        | 0o120000) & 0xffff) as u16 == 0o120000 + perm % 4096 && ((perm & 0o7777 | 0o100000)
        & 0xffff) as u16 == 0o100000 + perm % 4096) by (bit_vector);
}

/// `statx` asks about the path, or, for an empty path where 0x1000 is in the flags, about
/// the descriptor itself; an empty path without it names nothing. It writes nothing
/// before the host has answered, but for what is no file.
pub proof fn statx_asks_about_the_path(
    f: FdModel,
    vfs: Vfs,
    m: Seq<u8>,
    a: [i64; 6],
    p: Seq<u8>,
)
    requires
        is_text(m, a[1] as int, 4096, p),
        in_bounds(m.len(), a[4] as int, 256),
        a[2] == 0 || a[2] == 0x1000,
    ensures
        ({
            let (r, after) = statx_step(f, vfs, m, a);
            &&& p.len() > 0 ==> after == m && match resolve_at(f, vfs.root@, vfs.cwd@, a[0], p) {
                Ok(abs) => r == StatxModel::Path(abs),
                Err(e) => r == StatxModel::Done(e as int),
            }
            &&& p.len() == 0 && a[2] == 0 ==> r == StatxModel::Done(-2) && after == m
            &&& p.len() == 0 && a[2] == 0x1000 ==> match f.at(a[0] as int) {
                None => r == StatxModel::Done(-9) && after == m,
                Some(Resource::File(n)) => r == StatxModel::File(n) && after == m,
                Some(_) => r == StatxModel::Done(0) && word_at(after, a[4] + 32, 2) == 0o020666,
            }
        }),
{
    text_is_unique(m, a[1] as int, 4096, p, text_at(m, a[1] as int, 4096)->Some_0);
    assert(0x1000i32 & !(0x1000i32 | 0x800i32 | 0x100i32) == 0 && 0i32 & !(0x1000i32 | 0x800i32
        | 0x100i32) == 0 && 0i32 & 0x1000i32 == 0 && 0x1000i32 & 0x1000i32 != 0 && 0o020666u32
        & 0xffff == 0o020666) by (bit_vector);
    pow256_values();
    let c = statx_of(char_device());
    statx_field_offsets(c);
    lands(m, a[4] as int, c.image(), 32, 2, 0o020666);
}

/// A renaming that must not replace anything is refused where something is at its
/// target, and only then.
pub proof fn a_renaming_replaces_only_where_it_may(no_replace: bool, target_exists: bool)
    ensures
        rename_verdict(no_replace, target_exists) is Err <==> no_replace && target_exists,
        rename_verdict(no_replace, target_exists) matches Err(e) ==> e == -17,
{
}

/// The link that is read, and the file whose times are set, are those that the path
/// names; the times are those of the record.
pub proof fn links_and_times_are_of_the_path(f: FdModel, vfs: Vfs, m: Seq<u8>, a: [i64; 6])
    ensures
        0 <= a[3] <= usize::MAX ==> readlink_path(f, vfs, m, a) == named(f, vfs, m, a[0], a[1]),
        a[3] < 0 ==> (readlink_path(f, vfs, m, a) matches Err(e) && e == -22),
        ({
            let r = utimensat_request(f, vfs, m, a);
            match (named(f, vfs, m, a[0], a[1]), times_arg(m, a[2])) {
                (Ok(p), Ok(t)) => r matches Ok(q) && q.0 == p && q.1 == t,
                _ => r is Err,
            }
        }),
{
}

} // verus!
