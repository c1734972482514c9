//! Reading, writing, seeking, pipes and duplicates.

use vstd::prelude::*;
use crate::bytes::le;
use crate::bytes::le_len;
use crate::bytes::le_of_value;
use crate::bytes::le_round_trip;
use crate::bytes::pow256_values;
use crate::errno::EACCES;
use crate::errno::EAGAIN;
use crate::errno::EBADF;
use crate::errno::EFAULT;
use crate::errno::EINVAL;
use crate::errno::EIO;
use crate::errno::EMFILE;
use crate::errno::ENOTDIR;
use crate::errno::ERANGE;
use crate::errno::ESPIPE;
use crate::fd::a_number_is_free;
use crate::fd::a_number_is_free_among;
use crate::fd::closing_leaves_the_others;
use crate::fd::FdModel;
use crate::fd::Resource;
use crate::fd::WakeSource;
use crate::fd::FD_LIMIT;
use crate::mem::in_bounds;
use crate::mem::window;
use crate::mem::word_at;
use crate::path::path_text;
use crate::sys::file::close_after;
use crate::sys::file::dup2_after;
use crate::sys::file::dup3_after;
use crate::sys::file::dup_call;
use crate::sys::file::end_place;
use crate::sys::file::fcntl_after;
use crate::sys::file::getcwd_after;
use crate::sys::file::getdents_after;
use crate::sys::file::getdents_listed_after;
use crate::sys::file::lseek_after;
use crate::sys::file::lseek_done_after;
use crate::sys::file::pipe2_after;
use crate::sys::file::pipe_after;
use crate::sys::file::read_after;
use crate::sys::file::read_done_after;
use crate::sys::file::transfer;
use crate::sys::file::vectored_start;
use crate::sys::file::write_after;
use crate::sys::file::write_done_after;
use crate::sys::file::DirModel;
use crate::sys::file::LseekStep;
use crate::sys::file::ReadStep;
use crate::sys::file::WriteModel;

verus! {

broadcast use le_len;

/// Whether `g` is `f` but for the pipe `n`.
pub open spec fn only_pipe_changed(f: FdModel, g: FdModel, n: u64) -> bool {
    &&& g.slots == f.slots && g.files == f.files && g.sockets == f.sockets && g.epolls == f.epolls
        && g.eventfds == f.eventfds && g.next_id == f.next_id
    &&& forall|k: u64| k != n && f.pipes.contains_key(k) ==> #[trigger] g.pipes[k] == f.pipes[k]
}

/// Whether `g` is `f` but for the file `n`.
pub open spec fn only_file_changed(f: FdModel, g: FdModel, n: u64) -> bool {
    &&& g.slots == f.slots && g.pipes == f.pipes && g.sockets == f.sockets && g.epolls == f.epolls
        && g.eventfds == f.eventfds && g.next_id == f.next_id
    &&& forall|k: u64| k != n && f.files.contains_key(k) ==> #[trigger] g.files[k] == f.files[k]
}

/// Whether `r` can be written to as a pipe, and its number.
pub open spec fn writes_pipe(r: Option<Resource>, n: u64) -> bool {
    r == Some(Resource::PipeWrite(n)) || r == Some(Resource::Stdout(n)) || r == Some(
        Resource::Stderr(n),
    )
}

/// Whether `r` can be read from as a pipe, and its number.
pub open spec fn reads_pipe(r: Option<Resource>, n: u64) -> bool {
    r == Some(Resource::PipeRead(n)) || r == Some(Resource::Stdin(n))
}

/// Writing to a pipe puts all the bytes behind those that are there, in order, and says
/// how many; who waits for the pipe is woken where it was empty.
pub proof fn written_bytes_are_queued(f: FdModel, m: Seq<u8>, a: [i64; 6], n: u64)
    requires
        writes_pipe(f.at(a[0] as int), n),
        in_bounds(m.len(), a[1] as int, a[2] as int),
        a[2] > 0,
    ensures
        ({
            let r = write_after(f, m, a);
            let before = f.pipes[n].buf;
            let after = r.fds.pipes[n].buf;
            &&& r.step == (WriteModel::Done {
                ret: a[2] as int,
                wake: if before.len() == 0 {
                    WakeSource::Pipe(n)
                } else {
                    WakeSource::Never
                },
            })
            &&& after.len() == before.len() + a[2]
            &&& forall|i: int| 0 <= i < before.len() ==> #[trigger] after[i] == before[i]
            &&& forall|i: int| 0 <= i < a[2] ==> #[trigger] after[before.len() + i] == m[a[1] + i]
            &&& r.fds.pipes[n].closed == f.pipes[n].closed
            &&& r.fds.pipes[n].rd_nonblock == f.pipes[n].rd_nonblock
            &&& r.fds.pipes[n].wr_nonblock == f.pipes[n].wr_nonblock
            &&& only_pipe_changed(f, r.fds, n)
        }),
{
    let r = write_after(f, m, a);
    let before = f.pipes[n].buf;
    let b = window(m, a[1] as int, a[2] as int);
    assert(r.fds.pipes[n].buf == before + b);
    assert forall|i: int| 0 <= i < a[2] implies #[trigger] r.fds.pipes[n].buf[before.len() + i]
        == m[a[1] + i] by {
        assert(b[i] == m[a[1] + i]);
    }
}

/// Reading from a pipe takes bytes from its front, as many as there are and fit; the rest
/// stays for the next read. An empty pipe is at its end where it is closed, and has
/// nothing yet where it is not.
pub proof fn queued_bytes_are_read(f: FdModel, m: Seq<u8>, a: [i64; 6], n: u64)
    requires
        reads_pipe(f.at(a[0] as int), n),
        in_bounds(m.len(), a[1] as int, a[2] as int),
        a[2] > 0,
    ensures
        ({
            let r = read_after(f, m, a);
            let before = f.pipes[n].buf;
            let after = r.fds.pipes[n].buf;
            let k: int = if before.len() < a[2] {
                before.len() as int
            } else {
                a[2] as int
            };
            if before.len() == 0 {
                &&& r.step == ReadStep::Done(
                    if f.pipes[n].closed {
                        0
                    } else {
                        (-EAGAIN) as i64
                    },
                )
                &&& r.fds == f
                &&& r.mem == m
            } else {
                &&& r.step == ReadStep::Done(k as i64)
                &&& r.mem.len() == m.len()
                &&& forall|i: int| 0 <= i < k ==> #[trigger] r.mem[a[1] + i] == before[i]
                &&& forall|j: int|
                    0 <= j < m.len() && !(a[1] <= j < a[1] + k) ==> #[trigger] r.mem[j] == m[j]
                &&& after.len() == before.len() - k
                &&& forall|i: int| 0 <= i < after.len() ==> #[trigger] after[i] == before[k + i]
                &&& r.fds.pipes[n].closed == f.pipes[n].closed
                &&& only_pipe_changed(f, r.fds, n)
            }
        }),
{
}

/// Reading and writing are refused on a descriptor that is not open, or not for that, and
/// on a buffer outside of the memory. No bytes at all are moved at once.
pub proof fn a_transfer_is_refused(f: FdModel, m: Seq<u8>, a: [i64; 6])
    ensures
        ({
            let r = read_after(f, m, a);
            let w = write_after(f, m, a);
            let there = in_bounds(m.len(), a[1] as int, a[2] as int);
            let named = 0 <= a[0] <= u32::MAX;
            let res = f.at(a[0] as int);
            let readable = match res {
                Some(Resource::Stdin(_)) | Some(Resource::PipeRead(_)) | Some(
                    Resource::File(_),
                ) | Some(Resource::EventFd(_)) | Some(Resource::Socket(_)) => true,
                _ => false,
            };
            let writable = match res {
                Some(Resource::Stdout(_)) | Some(Resource::Stderr(_)) | Some(
                    Resource::PipeWrite(_),
                ) | Some(Resource::File(_)) | Some(Resource::EventFd(_)) | Some(
                    Resource::Socket(_),
                ) => true,
                _ => false,
            };
            &&& !named ==> r.step == ReadStep::Done((-EBADF) as i64)
            &&& named && !there ==> r.step == ReadStep::Done((-EFAULT) as i64)
            &&& named && there && a[2] == 0 ==> r.step == ReadStep::Done(0)
            &&& there && a[2] > 0 && !readable ==> r.step == ReadStep::Done((-EBADF) as i64)
            &&& !named || !there || a[2] == 0 || !readable ==> r.fds == f && r.mem == m
            &&& !named ==> w.step == (WriteModel::Done { ret: -EBADF, wake: WakeSource::Never })
            &&& named && !there ==> w.step == (WriteModel::Done {
                ret: -EFAULT,
                wake: WakeSource::Never,
            })
            &&& named && there && a[2] == 0 ==> w.step == (WriteModel::Done {
                ret: 0,
                wake: WakeSource::Never,
            })
            &&& there && a[2] > 0 && !writable ==> w.step == (WriteModel::Done {
                ret: -EBADF,
                wake: WakeSource::Never,
            })
            &&& !named || !there || a[2] == 0 || !writable ==> w.fds == f
        }),
{
}

/// What was written to a pipe is what is read from it, whoever writes more in between
/// comes later.
pub proof fn a_pipe_gives_what_it_got(
    f: FdModel,
    m: Seq<u8>,
    w: [i64; 6],
    later: Seq<u8>,
    r: [i64; 6],
    n: u64,
)
    requires
        writes_pipe(f.at(w[0] as int), n),
        reads_pipe(f.at(r[0] as int), n),
        f.pipes[n].buf.len() == 0,
        in_bounds(m.len(), w[1] as int, w[2] as int),
        in_bounds(later.len(), r[1] as int, r[2] as int),
        0 < w[2] <= r[2],
    ensures
        ({
            let got = read_after(write_after(f, m, w).fds, later, r);
            &&& got.step == ReadStep::Done(w[2])
            &&& forall|i: int| 0 <= i < w[2] ==> #[trigger] got.mem[r[1] + i] == m[w[1] + i]
            &&& got.fds.pipes[n].buf.len() == 0
        }),
{
    written_bytes_are_queued(f, m, w, n);
    let g = write_after(f, m, w).fds;
    queued_bytes_are_read(g, later, r, n);
    let got = read_after(g, later, r);
    assert forall|i: int| 0 <= i < w[2] implies #[trigger] got.mem[r[1] + i] == m[w[1] + i] by {
        assert(g.pipes[n].buf[f.pipes[n].buf.len() + i] == m[w[1] + i]);
        assert(got.mem[r[1] + i] == g.pipes[n].buf[i]);
    }
}

/// A write to an event counter adds its first eight bytes, the low byte first, up to the
/// highest number there is. It needs eight bytes.
pub proof fn a_counter_adds(f: FdModel, m: Seq<u8>, a: [i64; 6], n: u64)
    requires
        f.at(a[0] as int) == Some(Resource::EventFd(n)),
        in_bounds(m.len(), a[1] as int, a[2] as int),
        a[2] > 0,
    ensures
        ({
            let r = write_after(f, m, a);
            let sum = f.eventfds[n].counter + word_at(m, a[1] as int, 8);
            &&& a[2] < 8 ==> r.fds == f && r.step == (WriteModel::Done {
                ret: -EINVAL,
                wake: WakeSource::Never,
            })
            &&& a[2] >= 8 ==> {
                &&& r.step == (WriteModel::Done { ret: 8, wake: WakeSource::EventFd(n) })
                &&& sum <= u64::MAX ==> r.fds.eventfds[n].counter == sum
                &&& sum > u64::MAX ==> r.fds.eventfds[n].counter == u64::MAX
                &&& r.fds.eventfds[n].nonblock == f.eventfds[n].nonblock
                &&& r.fds.slots == f.slots && r.fds.pipes == f.pipes && r.fds.sockets == f.sockets
                    && r.fds.files == f.files && r.fds.epolls == f.epolls
            }
        }),
{
    pow256_values();
    if a[2] >= 8 {
        le_of_value(window(m, a[1] as int, 8));
    }
}

/// A read from an event counter gives its number in eight bytes and sets it to zero. A
/// counter at zero gives nothing: an error where it does not block, no bytes where it
/// does.
pub proof fn a_counter_is_emptied(f: FdModel, m: Seq<u8>, a: [i64; 6], n: u64)
    requires
        f.at(a[0] as int) == Some(Resource::EventFd(n)),
        in_bounds(m.len(), a[1] as int, a[2] as int),
        a[2] > 0,
    ensures
        ({
            let r = read_after(f, m, a);
            let e = f.eventfds[n];
            &&& a[2] < 8 ==> r.step == ReadStep::Done((-EINVAL) as i64) && r.fds == f && r.mem == m
            &&& a[2] >= 8 && e.counter == 0 ==> r.fds == f && r.mem == m && r.step == ReadStep::Done(
                if e.nonblock {
                    (-EAGAIN) as i64
                } else {
                    0
                },
            )
            &&& a[2] >= 8 && e.counter > 0 ==> {
                &&& r.step == ReadStep::Done(8)
                &&& word_at(r.mem, a[1] as int, 8) == e.counter
                &&& r.fds.eventfds[n].counter == 0
                &&& r.fds.eventfds[n].nonblock == e.nonblock
                &&& r.fds.slots == f.slots
                &&& forall|j: int|
                    0 <= j < m.len() && !(a[1] <= j < a[1] + 8) ==> #[trigger] r.mem[j] == m[j]
            }
        }),
{
    pow256_values();
    le_round_trip(f.eventfds[n].counter as nat, 8);
    let r = read_after(f, m, a);
    if a[2] >= 8 && f.eventfds[n].counter > 0 {
        assert(window(r.mem, a[1] as int, 8) =~= le(f.eventfds[n].counter as nat, 8));
    }
}

/// Reading a file asks the host for as many bytes as fit from its position on, and
/// writing hands it the bytes of the buffer for that position.
pub proof fn files_are_read_from_their_position(f: FdModel, m: Seq<u8>, a: [i64; 6], n: u64)
    requires
        f.at(a[0] as int) == Some(Resource::File(n)),
        in_bounds(m.len(), a[1] as int, a[2] as int),
        0 < a[2] <= usize::MAX,
    ensures
        read_after(f, m, a).step == (ReadStep::File {
            file: n,
            pos: f.files[n].pos,
            len: a[2] as usize,
        }),
        read_after(f, m, a).fds == f && read_after(f, m, a).mem == m,
        write_after(f, m, a).step == (WriteModel::File {
            file: n,
            pos: f.files[n].pos,
            bytes: m.subrange(a[1] as int, a[1] + a[2]),
        }),
        write_after(f, m, a).fds == f,
{
}

/// The bytes of a file that were read are put into the buffer in order, the answer is
/// their number, and the position moves behind them: so it does for bytes that were
/// written. A failure moves nothing.
pub proof fn the_position_follows(
    f: FdModel,
    m: Seq<u8>,
    file: u64,
    ptr: int,
    got: Seq<u8>,
    wrote: usize,
)
    requires
        f.files.contains_key(file),
        in_bounds(m.len(), ptr, got.len() as int),
        f.files[file].pos + got.len() <= u64::MAX,
        f.files[file].pos + wrote <= u64::MAX,
    ensures
        ({
            let r = read_done_after(f, m, file, ptr, Some(got));
            &&& r.ret == got.len()
            &&& forall|i: int| 0 <= i < got.len() ==> #[trigger] r.mem[ptr + i] == got[i]
            &&& forall|j: int|
                0 <= j < m.len() && !(ptr <= j < ptr + got.len()) ==> #[trigger] r.mem[j] == m[j]
            &&& r.mem.len() == m.len()
            &&& r.fds.files[file].pos == f.files[file].pos + got.len()
            &&& r.fds.files[file].path == f.files[file].path
            &&& r.fds.files[file].is_dir == f.files[file].is_dir
            &&& only_file_changed(f, r.fds, file)
        }),
        ({
            let (r, g) = write_done_after(f, file, Some(wrote));
            &&& r == wrote
            &&& g.files[file].pos == f.files[file].pos + wrote
            &&& g.files[file].path == f.files[file].path
            &&& only_file_changed(f, g, file)
        }),
        read_done_after(f, m, file, ptr, None).ret == -EACCES,
        read_done_after(f, m, file, ptr, None).fds == f,
        read_done_after(f, m, file, ptr, None).mem == m,
        write_done_after(f, file, None) == (-EIO as int, f),
{
}

/// Seeking: from the start (0) goes to the offset, from where the file is (1) as far from
/// there, and from the end (2) asks the host for the length first. Nothing lies before
/// the start: an offset from the start below zero is taken as zero, and one from the
/// position that would lead there is refused. A directory can only be rewound, and what is
/// no file has no position.
pub proof fn seeking_finds_the_place(f: FdModel, a: [i64; 6])
    ensures
        ({
            let (step, g) = lseek_after(f, a);
            match f.at(a[0] as int) {
                None => step == LseekStep::Done((-EBADF) as i64) && g == f,
                Some(Resource::File(n)) => if f.files[n].is_dir {
                    if a[1] == 0 && a[2] == 0 {
                        &&& step == LseekStep::Done(0)
                        &&& g.files[n].pos == 0
                        &&& g.files[n].dir_cache == f.files[n].dir_cache
                        &&& only_file_changed(f, g, n)
                    } else {
                        step == LseekStep::Done((-ESPIPE) as i64) && g == f
                    }
                } else {
                    &&& g == f
                    &&& a[2] == 0 && a[1] >= 0 ==> (step matches LseekStep::Seek { file, to } && file
                        == n && to == a[1])
                    &&& a[2] == 0 && a[1] < 0 ==> (step matches LseekStep::Seek { file, to } && file
                        == n && to == 0)
                    &&& a[2] == 1 && 0 <= f.files[n].pos + a[1] <= i64::MAX ==> (
                    step matches LseekStep::Seek { file, to } && file == n && to == f.files[n].pos
                        + a[1])
                    &&& a[2] == 1 && !(0 <= f.files[n].pos + a[1] <= i64::MAX) ==> step
                        == LseekStep::Done((-EINVAL) as i64)
                    &&& a[2] == 2 ==> step == (LseekStep::Length { file: n })
                    &&& !(0 <= a[2] <= 2) ==> step == LseekStep::Done((-EINVAL) as i64)
                },
                Some(_) => step == LseekStep::Done((-ESPIPE) as i64) && g == f,
            }
        }),
        forall|off: int, len: u64|
            off + len >= 0 ==> #[trigger] end_place(off, Some(len)) == len + off,
        forall|off: int, len: u64| off + len < 0 ==> #[trigger] end_place(off, Some(len)) == 0,
{
}

/// A seek that the host made is answered with the place, and the next read or write is
/// there.
pub proof fn a_seek_moves_the_position(f: FdModel, file: u64, to: u64)
    ensures
        lseek_done_after(f, file, to, true).0 == to,
        lseek_done_after(f, file, to, true).1.files[file].pos == to,
        lseek_done_after(f, file, to, true).1.files[file].path == f.files[file].path,
        lseek_done_after(f, file, to, true).1.files[file].is_dir == f.files[file].is_dir,
        only_file_changed(f, lseek_done_after(f, file, to, true).1, file),
        lseek_done_after(f, file, to, false) == (-EINVAL as int, f),
{
}

/// A new pipe has two new descriptors, told by their numbers, the reading end first. They
/// name one empty pipe, do not block where 0o4000 is in the flags and are closed on exec
/// where 0o2000000 is. Every other descriptor stays.
pub proof fn a_pipe_has_two_ends(f: FdModel, m: Seq<u8>, a: [i64; 6])
    requires
        f.wf(),
        f.room(2),
        in_bounds(m.len(), a[0] as int, 8),
    ensures
        ({
            let r = pipe2_after(f, m, a);
            let rd = word_at(r.mem, a[0] as int, 4) as int;
            let wr = word_at(r.mem, a[0] + 4, 4) as int;
            let nonblock = (a[1] as i32) & 0o4000 != 0;
            let cloexec = (a[1] as i32) & 0o2000000 != 0;
            &&& r.ret == 0
            &&& rd != wr && rd >= 3 && wr >= 3
            &&& f.at(rd) is None && f.at(wr) is None
            &&& forall|k: int| 3 <= k < rd ==> #[trigger] f.at(k) is Some
            &&& r.fds.at(rd) matches Some(Resource::PipeRead(n)) && {
                &&& r.fds.at(wr) == Some(Resource::PipeWrite(n))
                &&& !f.pipes.contains_key(n)
                &&& r.fds.pipes[n].buf.len() == 0
                &&& !r.fds.pipes[n].closed
                &&& r.fds.pipes[n].rd_nonblock == nonblock
                &&& r.fds.pipes[n].wr_nonblock == nonblock
                &&& forall|k: u64| f.pipes.contains_key(k) ==> #[trigger] r.fds.pipes[k]
                    == f.pipes[k]
            }
            &&& r.fds.slots[rd as u32].cloexec == cloexec
            &&& r.fds.slots[wr as u32].cloexec == cloexec
            &&& forall|k: u32|
                k != rd && k != wr ==> #[trigger] r.fds.at(k as int) == f.at(k as int)
            &&& forall|j: int|
                0 <= j < m.len() && !(a[0] <= j < a[0] + 8) ==> #[trigger] r.mem[j] == m[j]
        }),
        pipe_after(f, m, a[0] as int, false, false) == pipe2_after(
            f,
            m,
            [a[0], 0, 0, 0, 0, 0],
        ),
{
    a_number_is_free(f, 3);
    let n = f.next_id;
    let x = crate::fd::lowest_free(f.slots, 3);
    if x > FD_LIMIT {
        assert(f.slots.contains_key(FD_LIMIT));
    }
    let one = f.bind(x, Resource::PipeRead(n));
    a_number_is_free_among(one.slots, 3);
    let y = crate::fd::lowest_free(one.slots, 3);
    let r = pipe2_after(f, m, a);
    pow256_values();
    le_round_trip(x as nat, 4);
    le_round_trip(y as nat, 4);
    assert(window(r.mem, a[0] as int, 4) =~= le(x as nat, 4));
    assert(window(r.mem, a[0] + 4, 4) =~= le(y as nat, 4));
    assert(0i32 & 0o4000 == 0 && 0i32 & 0o2000000 == 0) by (bit_vector);
}

/// Whether what `r` names can have another descriptor.
pub open spec fn can_have_two(r: Option<Resource>) -> bool {
    match r {
        None | Some(Resource::Epoll(_)) | Some(Resource::EventFd(_)) => false,
        _ => true,
    }
}

/// Whether `g` is `f` but for the descriptor `fd`, which names what `old` names, and what
/// that closed.
pub open spec fn is_second(f: FdModel, g: FdModel, old: int, fd: int, cloexec: bool) -> bool {
    &&& 0 <= fd <= u32::MAX
    &&& g.at(fd) == f.at(old)
    &&& g.at(old) == f.at(old)
    &&& g.slots[fd as u32].cloexec == cloexec
    &&& forall|k: u32| k != fd ==> #[trigger] g.at(k as int) == f.at(k as int)
    &&& forall|k: u32|
        k != fd && f.slots.contains_key(k) ==> #[trigger] g.slots[k].cloexec == f.slots[k].cloexec
}

/// `dup` gives the lowest free descriptor from three on to what the old one names; the
/// copy is not closed on exec, and every object stays as it was.
pub proof fn dup_gives_the_lowest(f: FdModel, a: [i64; 6])
    requires
        f.wf(),
        f.slots.len() < crate::fd::MAX_OPEN,
    ensures
        ({
            let (r, g) = dup_call(f, a);
            &&& !can_have_two(f.at(a[0] as int)) ==> r == -EBADF && g == f
            &&& can_have_two(f.at(a[0] as int)) && r >= 0 ==> {
                &&& r >= 3
                &&& f.at(r) is None
                &&& forall|k: int| 3 <= k < r ==> #[trigger] f.at(k) is Some
                &&& is_second(f, g, a[0] as int, r, false)
                &&& g.pipes == f.pipes && g.files == f.files && g.sockets == f.sockets
            }
            &&& can_have_two(f.at(a[0] as int)) && r < 0 ==> r == -EMFILE && g == f && forall|k: int|
                3 <= k < FD_LIMIT ==> #[trigger] f.at(k) is Some
        }),
{
    a_number_is_free(f, 3);
}

/// `dup2` lets exactly the descriptor that was asked for name what the old one names, and
/// closes what it named before; `dup3` does the same for two descriptors that differ, and
/// records whether the copy is closed on exec.
pub proof fn dup2_takes_the_descriptor(f: FdModel, a: [i64; 6])
    requires
        f.wf(),
        0 <= a[1] < FD_LIMIT,
    ensures
        ({
            let (r, g) = dup2_after(f, a);
            &&& a[0] == a[1] && f.at(a[0] as int) is Some ==> r == a[1] && g == f
            &&& a[0] == a[1] && f.at(a[0] as int) is None ==> r == -EBADF && g == f
            &&& a[0] != a[1] && !can_have_two(f.at(a[0] as int)) ==> r == -EBADF && g == f
            &&& a[0] != a[1] && can_have_two(f.at(a[0] as int)) ==> r == a[1] && is_second(
                f,
                g,
                a[0] as int,
                a[1] as int,
                false,
            )
        }),
        ({
            let (r, g) = dup3_after(f, a);
            let flags = a[2] as i32;
            let known = flags & !0o2000000 == 0;
            &&& 0 <= a[0] <= u32::MAX && (!known || a[0] == a[1]) ==> r == -EINVAL && g == f
            &&& known && a[0] != a[1] && !can_have_two(f.at(a[0] as int)) ==> r == -EBADF && g == f
            &&& known && a[0] != a[1] && can_have_two(f.at(a[0] as int)) ==> r == a[1] && is_second(
                f,
                g,
                a[0] as int,
                a[1] as int,
                flags & 0o2000000 != 0,
            )
        }),
{
    let t = a[1] as u32;
    let g = f.closed(t);
    assert forall|k: u32| k != t implies #[trigger] g.at(k as int) == f.at(k as int) by {
        closing_leaves_the_others(f, t, k);
    }
    if f.at(a[0] as int) is Some && a[0] != a[1] {
        assert(a[0] as u32 != t);
        assert(g.at((a[0] as u32) as int) == f.at((a[0] as u32) as int));
    }
}

/// A descriptor that was closed names nothing and the others name what they named. What
/// it named is gone where no other descriptor names it, and is there where one does.
pub proof fn closing_closes_one(f: FdModel, a: [i64; 6], other: u32)
    requires
        f.wf(),
    ensures
        ({
            let (r, g) = close_after(f, a);
            let res = f.at(a[0] as int);
            &&& res is None ==> r == -EBADF && g == f
            &&& res is Some ==> {
                &&& r == 0
                &&& g.at(a[0] as int) is None
                &&& other != a[0] ==> g.at(other as int) == f.at(other as int)
                &&& other != a[0] && f.at(other as int) == res ==> crate::fd::alive(g, res->Some_0)
                &&& (forall|k: u32|
                    k != a[0] && f.slots.contains_key(k) ==> crate::fd::object(
                        #[trigger] f.slots[k].res,
                    ) != crate::fd::object(res->Some_0)) ==> !crate::fd::alive(g, res->Some_0)
            }
        }),
{
    if f.at(a[0] as int) is Some && other != a[0] {
        closing_leaves_the_others(f, a[0] as u32, other);
    }
    if f.at(a[0] as int) is Some {
        let fd = a[0] as u32;
        let res = f.at(a[0] as int)->Some_0;
        let rest = FdModel { slots: f.slots.remove(fd), ..f };
        if rest.names(crate::fd::object(res)) {
            let k = choose|k: u32|
                rest.slots.contains_key(k) && crate::fd::object(#[trigger] rest.slots[k].res)
                    == crate::fd::object(res);
            assert(f.slots[k].res == rest.slots[k].res);
        }
    }
}

/// Closing one descriptor leaves what the others name as it was, whatever that holds.
pub proof fn closing_changes_no_other(f: FdModel, a: [i64; 6], other: u32)
    requires
        f.wf(),
        other != a[0],
    ensures
        ({
            let g = close_after(f, a).1;
            match f.at(other as int) {
                None => true,
                Some(Resource::Stdin(n)) | Some(Resource::Stdout(n)) | Some(Resource::Stderr(n))
                | Some(Resource::PipeRead(n)) | Some(Resource::PipeWrite(n)) => g.pipes[n]
                    == f.pipes[n],
                Some(Resource::File(n)) => g.files[n] == f.files[n],
                Some(Resource::Socket(n)) => g.sockets[n] == f.sockets[n],
                Some(Resource::Epoll(n)) => g.epolls[n] == f.epolls[n],
                Some(Resource::EventFd(n)) => g.eventfds[n] == f.eventfds[n],
            }
        }),
        f.slots.contains_key(other) ==> close_after(f, a).1.slots[other] == f.slots[other],
{
    if f.at(a[0] as int) is Some && f.at(other as int) is Some {
        let fd = a[0] as u32;
        let n = crate::fd::object(f.slots[fd].res);
        let rest = FdModel { slots: f.slots.remove(fd), ..f };
        assert(rest.slots.contains_key(other));
        assert(rest.slots[other].res == f.slots[other].res);
        if crate::fd::object(f.slots[other].res) == n {
            assert(rest.names(n));
        }
    }
}

/// `fcntl` tells (3) and sets (4) whether a descriptor blocks. What is told has the
/// access mode in its low bits, zero for reading, one for writing and two for both, and
/// 0o4000 where it does not block; what is set is kept for pipes and sockets, and for all
/// descriptors of the object.
pub proof fn status_flags_are_kept(f: FdModel, m: Seq<u8>, get: [i64; 6], set: [i64; 6])
    requires
        f.wf(),
        get[0] == set[0],
        get[1] as i32 == 3,
        set[1] as i32 == 4,
        f.at(get[0] as int) is Some,
    ensures
        ({
            let r = fcntl_after(f, m, set);
            let told = fcntl_after(r.fds, m, get);
            let res = f.at(get[0] as int)->Some_0;
            let on = (set[2] as i32) & 0o4000 != 0;
            let bit: int = if on {
                0o4000
            } else {
                0
            };
            &&& r.ret == 0 && r.mem == m
            &&& told.fds == r.fds && told.mem == m
            &&& r.fds.slots == f.slots
            &&& match res {
                Resource::Stdin(_) | Resource::PipeRead(_) => told.ret == bit,
                Resource::Stdout(_) | Resource::Stderr(_) | Resource::PipeWrite(_) => told.ret == 1
                    + bit,
                Resource::Socket(_) => told.ret == 2 + bit,
                _ => told.ret == 2 && r.fds == f,
            }
        }),
{
    assert(0i32 | 0o4000 == 0o4000 && 1i32 | 0o4000 == 0o4001 && 2i32 | 0o4000 == 0o4002)
        by (bit_vector);
}

/// `fcntl` sets (2) and tells (1) whether a descriptor is closed on exec, by the lowest
/// bit of its argument, each descriptor on its own.
pub proof fn cloexec_is_kept(f: FdModel, m: Seq<u8>, set: [i64; 6], get: [i64; 6])
    requires
        0 <= set[0] <= u32::MAX,
        0 <= get[0] <= u32::MAX,
        f.at(set[0] as int) is Some,
        f.at(get[0] as int) is Some,
        set[1] as i32 == 2,
        get[1] as i32 == 1,
        get[2] == 0,
    ensures
        ({
            let r = fcntl_after(f, m, set);
            let before = fcntl_after(f, m, get).ret;
            let told = fcntl_after(r.fds, m, get);
            &&& r.ret == 0 && r.mem == m
            &&& get[0] == set[0] ==> told.ret == (if (set[2] as i32) & 1 != 0 {
                1int
            } else {
                0int
            })
            &&& get[0] != set[0] ==> told.ret == before
            &&& told.mem == m && told.fds == r.fds
            &&& r.fds.at(set[0] as int) == f.at(set[0] as int)
            &&& r.fds.pipes == f.pipes && r.fds.files == f.files && r.fds.sockets == f.sockets
        }),
{
}

/// `fcntl` duplicates a descriptor (0, or 1030 to have it closed on exec) to the lowest
/// free one from its argument on.
pub proof fn fcntl_dup_starts_at_its_argument(f: FdModel, m: Seq<u8>, a: [i64; 6])
    requires
        f.wf(),
        a[1] as i32 == 0 || a[1] as i32 == 1030,
        can_have_two(f.at(a[0] as int)),
        0 <= a[2] <= i32::MAX,
    ensures
        ({
            let r = fcntl_after(f, m, a);
            &&& r.mem == m
            &&& r.ret >= 0 ==> {
                &&& r.ret >= a[2]
                &&& f.at(r.ret) is None
                &&& forall|k: int| a[2] <= k < r.ret ==> #[trigger] f.at(k) is Some
                &&& is_second(f, r.fds, a[0] as int, r.ret, a[1] as i32 == 1030)
            }
            &&& r.ret < 0 ==> r.ret == -EMFILE && r.fds == f && forall|k: int|
                a[2] <= k < FD_LIMIT ==> #[trigger] f.at(k) is Some
        }),
{
    a_number_is_free(f, a[2] as u32);
}

/// The list of buffers that `readv` and `writev` work through: the `i`-th has its address
/// in the first and its length in the second word of the `i`-th eight bytes.
pub proof fn buffers_are_listed(m: Seq<u8>, a: [i64; 6], i: int)
    requires
        0 <= i < a[2] <= usize::MAX,
        in_bounds(m.len(), a[1] as int, a[2] * 8),
    ensures
        vectored_start(m, a) matches Ok(v) && v.len() == a[2] && v[i].0 == word_at(
            m,
            a[1] + 8 * i,
            4,
        ) && v[i].1 == word_at(m, a[1] + 8 * i + 4, 4),
{
    let b = window(m, a[1] as int, a[2] * 8);
    assert(b.len() == a[2] * 8);
    assert(window(b, i * 8, 4) =~= window(m, a[1] + 8 * i, 4));
    assert(window(b, i * 8 + 4, 4) =~= window(m, a[1] + 8 * i + 4, 4));
    pow256_values();
    le_of_value(window(m, a[1] + 8 * i, 4));
    le_of_value(window(m, a[1] + 8 * i + 4, 4));
}

/// `readv` and `writev` come to the sum of what their buffers moved while each was filled
/// or emptied whole. A buffer that moved less is the last; an error of the first is the
/// answer, and a later one is not told. Empty buffers are passed over.
pub proof fn buffers_add_up(v: Seq<(i64, i64)>, results: Seq<int>, total: int)
    requires
        v.len() > 0,
        total >= 0,
    ensures
        transfer(Seq::empty(), results, total) == total,
        v[0].1 == 0 ==> transfer(v, results, total) == transfer(v.drop_first(), results, total),
        v[0].1 > 0 && results.len() > 0 && results[0] == v[0].1 ==> transfer(v, results, total)
            == transfer(v.drop_first(), results.drop_first(), total + results[0]),
        v[0].1 > 0 && results.len() > 0 && 0 <= results[0] < v[0].1 ==> transfer(v, results, total)
            == total + results[0],
        v[0].1 > 0 && results.len() > 0 && results[0] < 0 && total == 0 ==> transfer(
            v,
            results,
            total,
        ) == results[0],
        v[0].1 > 0 && results.len() > 0 && results[0] < 0 && total > 0 ==> transfer(
            v,
            results,
            total,
        ) == total,
{
}

/// `getcwd` writes the path of the working directory and a zero byte, and answers with
/// the length of the path; a buffer that is too short for them is refused.
pub proof fn the_working_directory_is_told(cwd: Seq<Seq<u8>>, m: Seq<u8>, a: [i64; 6])
    requires
        0 <= a[1] <= usize::MAX,
    ensures
        ({
            let t = path_text(cwd);
            let (r, after) = getcwd_after(cwd, m, a);
            &&& a[1] <= t.len() ==> r == -ERANGE && after == m
            &&& a[1] > t.len() && !in_bounds(m.len(), a[0] as int, t.len() as int + 1) ==> r == -EFAULT
                && after == m
            &&& a[1] > t.len() && in_bounds(m.len(), a[0] as int, t.len() as int + 1) ==> {
                &&& r == t.len()
                &&& after.subrange(a[0] as int, a[0] + t.len()) == t
                &&& after[a[0] + t.len()] == 0
                &&& after.len() == m.len()
                &&& forall|j: int|
                    0 <= j < m.len() && !(a[0] <= j <= a[0] + t.len()) ==> #[trigger] after[j]
                        == m[j]
            }
        }),
{
    let t = path_text(cwd);
    let after = getcwd_after(cwd, m, a).1;
    if a[1] > t.len() && in_bounds(m.len(), a[0] as int, t.len() as int + 1) {
        assert(after.subrange(a[0] as int, a[0] + t.len()) =~= t);
    }
}

/// Listing a directory asks the host once for its records; they are given out from the
/// position on, as many bytes as fit.
pub proof fn a_directory_is_listed_once(
    f: FdModel,
    m: Seq<u8>,
    a: [i64; 6],
    n: u64,
    path: Seq<Seq<u8>>,
    all: Seq<u8>,
)
    requires
        f.at(a[0] as int) == Some(Resource::File(n)),
        f.files[n].is_dir,
        f.files[n].path == Some(path),
        in_bounds(m.len(), a[1] as int, a[2] as int),
        a[2] > 0,
        f.files[n].pos <= all.len() <= u64::MAX,
    ensures
        ({
            let pos = f.files[n].pos as int;
            let k: int = if all.len() - pos < a[2] {
                all.len() - pos
            } else {
                a[2] as int
            };
            let first = getdents_after(f, m, a);
            let r = if f.files[n].dir_cache is None {
                getdents_listed_after(f, m, a, n, Ok(all))
            } else {
                crate::sys::file::After {
                    ret: first.step->Done_0,
                    fds: first.fds,
                    mem: first.mem,
                }
            };
            &&& f.files[n].dir_cache is None ==> first.step == (DirModel::List { file: n, path })
                && first.fds == f && first.mem == m
            &&& f.files[n].dir_cache is None || f.files[n].dir_cache == Some(all) ==> {
                &&& f.files[n].dir_cache is Some ==> first.step is Done
                &&& r.ret == k
                &&& forall|i: int| 0 <= i < k ==> #[trigger] r.mem[a[1] + i] == all[pos + i]
                &&& forall|j: int|
                    0 <= j < m.len() && !(a[1] <= j < a[1] + k) ==> #[trigger] r.mem[j] == m[j]
                &&& r.fds.files[n].pos == pos + k
                &&& r.fds.files[n].dir_cache == Some(all)
                &&& r.fds.files[n].path == f.files[n].path && r.fds.files[n].is_dir
                &&& only_file_changed(f, r.fds, n)
            }
        }),
{
    let pos = f.files[n].pos as nat;
    let part = crate::vfs::page(all, pos, a[2] as nat);
    if f.files[n].dir_cache is None || f.files[n].dir_cache == Some(all) {
        assert forall|i: int| 0 <= i < part.len() implies #[trigger] part[i] == all[pos + i] by {}
    }
}

/// Listing is refused on what is no directory, with no room and outside of the memory.
pub proof fn a_listing_is_refused(f: FdModel, m: Seq<u8>, a: [i64; 6])
    ensures
        ({
            let r = getdents_after(f, m, a);
            let there = in_bounds(m.len(), a[1] as int, a[2] as int);
            let named = 0 <= a[0] <= u32::MAX;
            let res = f.at(a[0] as int);
            &&& named && !there ==> r.step == DirModel::Done(-EFAULT)
            &&& named && there && a[2] == 0 ==> r.step == DirModel::Done(-EINVAL)
            &&& there && a[2] > 0 && res is None ==> r.step == DirModel::Done(-EBADF)
            &&& there && a[2] > 0 && (res matches Some(x) && !(x is File)) ==> r.step
                == DirModel::Done(-ENOTDIR)
            &&& there && a[2] > 0 && (res matches Some(Resource::File(n)) && !f.files[n].is_dir)
                ==> r.step == DirModel::Done(-ENOTDIR)
            &&& (r.step matches DirModel::Done(e) && e < 0) ==> r.fds == f && r.mem == m
        }),
{
}

} // verus!
