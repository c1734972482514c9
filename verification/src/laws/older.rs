//! The older calls, which start from the working directory, and the ends of lookups and
//! snapshots.

use vstd::prelude::*;
use crate::fd::a_number_is_free;
use crate::fd::FdModel;
use crate::fd::Resource;
use crate::ip::IpModel;
use crate::mem::is_text;
use crate::mem::text_at;
use crate::mem::text_is_unique;
use crate::sys::epoll::epoll_create1_after;
use crate::sys::fs::chmod_call;
use crate::sys::fs::lstat_call;
use crate::sys::fs::mkdir_call;
use crate::sys::fs::named_from_here;
use crate::sys::fs::open_call;
use crate::sys::fs::readlink_call;
use crate::sys::fs::rename_call;
use crate::sys::fs::stat_call;
use crate::sys::fs::symlink_call;
use crate::sys::fs::StatModel;
use crate::sys::path::resolve_at;
use crate::sys::process::snapshot_answer;
use crate::sys::process::snapshot_path;
use crate::sys::resolver::answered;
use crate::sys::resolver::resolve_done_after;
use crate::sys::resolver::QueryModel;
use crate::sys::resolver::ReplyModel;
use crate::sys::resolver::ResolverModel;
use crate::sys::socket::accept_after;
use crate::sys::socket::accept_call;
use crate::vfs::open_options;
use crate::vfs::Vfs;

verus! {

/// Where the text leads from the working directory.
pub open spec fn from_here(f: FdModel, vfs: Vfs, p: Seq<u8>) -> Result<Seq<Seq<u8>>, i64> {
    resolve_at(f, vfs.root@, vfs.cwd@, (-100) as i64, p)
}

/// A call without a directory is about the place that the text at its first argument
/// leads to from the working directory: the file that is opened, with the flags of the
/// second argument, asked about, with or without its last link followed, made, with the
/// lowest nine bits of its mode, changed in its mode, or taken away.
pub proof fn a_path_starts_from_here(f: FdModel, vfs: Vfs, m: Seq<u8>, a: [i64; 6], p: Seq<u8>)
    requires
        is_text(m, a[0] as int, 4096, p),
        p.len() > 0,
    ensures
        ({
            let to = from_here(f, vfs, p);
            let opened = open_call(f, vfs, m, a);
            let made = mkdir_call(f, vfs, m, a);
            let changed = chmod_call(f, vfs, m, a);
            &&& named_from_here(f, vfs, m, a) == to
            &&& 0 <= a[2] <= usize::MAX ==> readlink_call(f, vfs, m, a) == to
            &&& match to {
                Err(e) => {
                    &&& opened matches Err(x) && x == e
                    &&& made matches Err(x) && x == e
                    &&& changed matches Err(x) && x == e
                    &&& stat_call(f, vfs, m, a) == StatModel::Done(e as int)
                    &&& lstat_call(f, vfs, m, a) == StatModel::Done(e as int)
                },
                Ok(abs) => {
                    &&& open_options(a[1] as i32) matches Ok(o) ==> (opened matches Ok(x) && x.0 == abs
                        && x.1 == o)
                    &&& made matches Ok(x) && x.0 == abs && x.1 == (a[1] as u32) & 0o777
                    &&& changed matches Ok(x) && x.0 == abs && x.1 == (a[1] as u32) & 0o7777
                    &&& stat_call(f, vfs, m, a) == StatModel::Path(abs)
                    &&& lstat_call(f, vfs, m, a) == StatModel::Path(abs)
                },
            }
        }),
{
    text_is_unique(m, a[0] as int, 4096, p, text_at(m, a[0] as int, 4096)->Some_0);
}

/// `rename` goes from the first path to the second and may replace what is there;
/// `symlink` makes, at the second path, a link to the first text as it stands.
pub proof fn two_paths_keep_their_direction(
    f: FdModel,
    vfs: Vfs,
    m: Seq<u8>,
    a: [i64; 6],
    p: Seq<u8>,
    q: Seq<u8>,
)
    requires
        is_text(m, a[0] as int, 4096, p),
        is_text(m, a[1] as int, 4096, q),
        p.len() > 0 && q.len() > 0,
    ensures
        from_here(f, vfs, p) matches Ok(from) ==> (from_here(f, vfs, q) matches Ok(to) ==> (rename_call(
            f,
            vfs,
            m,
            a,
        ) matches Ok(x) && x.0 == from && x.1 == to && !x.2 && !x.3)),
        from_here(f, vfs, q) matches Ok(to) ==> (symlink_call(f, vfs, m, a) matches Ok(x) && x.0 == p
            && x.1 == to),
        from_here(f, vfs, q) is Err ==> symlink_call(f, vfs, m, a) is Err,
{
    text_is_unique(m, a[0] as int, 4096, p, text_at(m, a[0] as int, 4096)->Some_0);
    text_is_unique(m, a[1] as int, 4096, q, text_at(m, a[1] as int, 4096)->Some_0);
    assert(0i32 & !(1i32 | 2i32 | 4i32) == 0 && 0i32 & 4i32 == 0 && 0i32 & 1i32 == 0 && 0i32 & 2i32
        == 0) by (bit_vector);
}

/// `accept` is `accept4` without flags.
pub proof fn accept_has_no_flags(f: FdModel, m: Seq<u8>, a: [i64; 6], b: [i64; 6])
    requires
        b[0] == a[0] && b[1] == a[1] && b[2] == a[2] && b[3] == 0 && b[4] == 0 && b[5] == 0,
    ensures
        accept_call(f, m, a) == accept_after(f, m, b),
{
    assert(b =~= [a[0], a[1], a[2], 0, 0, 0]);
}

/// A new epoll set knows one flag, 0o2000000; the answer is its descriptor, the lowest
/// free one from three on, which is closed on exec where the flag is set. Any other flag
/// is refused.
pub proof fn a_new_set_has_a_descriptor(f: FdModel, a: [i64; 6])
    requires
        f.wf(),
    ensures
        ({
            let (r, g) = epoll_create1_after(f, a);
            &&& a[0] == 0 || a[0] == 0o2000000 ==> {
                &&& r >= 3
                &&& f.at(r) is None
                &&& forall|k: int| 3 <= k < r ==> #[trigger] f.at(k) is Some
                &&& g.at(r) matches Some(Resource::Epoll(n)) && g.epolls[n].len() == 0
                    && !f.epolls.contains_key(n)
                &&& g.slots[r as u32].cloexec == (a[0] != 0)
                &&& g.pipes == f.pipes && g.files == f.files && g.sockets == f.sockets
            }
            &&& 0 < a[0] < 0o2000000 ==> r == -22 && g == f
        }),
{
    a_number_is_free(f, 3);
    let x = a[0] as i32;
    assert((0 < x < 0o2000000 ==> x & !0o2000000 != 0) && 0i32 & !0o2000000i32 == 0 && 0i32
        & 0o2000000i32 == 0 && 0o2000000i32 & !0o2000000i32 == 0 && 0o2000000i32 & 0o2000000i32
        != 0) by (bit_vector);
}

/// A lookup that took too long answers -3 and one that failed -4, and neither leaves a
/// trace. One that found addresses remembers them under the name, and gives those that
/// are not denied.
pub proof fn a_lookup_ends(
    s: ResolverModel,
    m: Seq<u8>,
    q: QueryModel,
    v: Seq<IpModel>,
    now: u64,
)
    ensures
        resolve_done_after(s, m, q, ReplyModel::TimedOut, now) == (-3int, s, m),
        resolve_done_after(s, m, q, ReplyModel::Failed, now) == (-4int, s, m),
        ({
            let (r, t, after) = resolve_done_after(s, m, q, ReplyModel::Found(v), now);
            &&& (r, after) == answered(m, q, v, s.denylist)
            &&& t.denylist == s.denylist && t.ttl_ms == s.ttl_ms && t.timeout_ms == s.timeout_ms
        }),
{
}

/// A snapshot is written to the path that its argument spells, and answers with the bytes
/// that the host wrote; without a path there is none.
pub proof fn a_snapshot_goes_to_its_path(m: Seq<u8>, a: [i64; 6], p: Seq<u8>, n: usize)
    ensures
        a[0] == 0 ==> snapshot_path(m, a) is None,
        a[0] != 0 && is_text(m, a[0] as int, 4096, p) ==> snapshot_path(m, a) == Some(p),
        snapshot_answer(Some(n)) == n,
        snapshot_answer(None) == -5,
{
    if is_text(m, a[0] as int, 4096, p) {
        text_is_unique(m, a[0] as int, 4096, p, text_at(m, a[0] as int, 4096)->Some_0);
    }
}

} // verus!
