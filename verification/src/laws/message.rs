//! Messages over several buffers, and the ends of what is sent.

use vstd::prelude::*;
use crate::bytes::le;
use crate::bytes::le_len;
use crate::bytes::le_of_value;
use crate::bytes::le_round_trip;
use crate::bytes::pow256_values;
use crate::fd::FdModel;
use crate::fd::Resource;
use crate::fd::SocketModel;
use crate::host::FileKind;
use crate::host::IoErrorKind;
use crate::mem::in_bounds;
use crate::mem::window;
use crate::mem::word_at;
use crate::mem::written;
use crate::sys::file::capacity;
use crate::sys::file::front;
use crate::sys::file::iovecs;
use crate::sys::socket::gathered;
use crate::sys::socket::msg_buffers;
use crate::sys::socket::recvmsg_after;
use crate::sys::socket::recvmsg_done_after;
use crate::sys::socket::scattered;
use crate::sys::socket::sendmsg_after;
use crate::sys::socket::sendmsg_done_after;
use crate::sys::socket::sendto_done_after;
use crate::sys::socket::separate;
use crate::sys::socket::unix_bind_cleared;
use crate::sys::socket::unix_bind_found;
use crate::sys::socket::RecvMsgModel;
use crate::sys::socket::SendMsgModel;
use crate::sys::socket::UnixBind;

verus! {

broadcast use le_len;

/// The number of buffers of the message header at `p`.
pub open spec fn count(m: Seq<u8>, p: int) -> int {
    word_at(m, p + 12, 4) as int
}

/// The address and the length of the `i`-th buffer of the message header at `p`.
pub open spec fn buffer(m: Seq<u8>, p: int, i: int) -> (int, int) {
    let list = word_at(m, p + 8, 4) as int;
    (word_at(m, list + 8 * i, 4) as int, word_at(m, list + 8 * i + 4, 4) as int)
}

/// Whether there is a message header at `p` with a list of buffers inside the memory.
pub open spec fn is_message(m: Seq<u8>, p: int) -> bool {
    &&& in_bounds(m.len(), p, 32)
    &&& word_at(m, p + 8, 4) != 0
    &&& count(m, p) > 0
    &&& in_bounds(m.len(), word_at(m, p + 8, 4) as int, 8 * count(m, p))
}

/// Whether every buffer of the message at `p` lies inside the memory, and none at zero.
pub open spec fn buffers_stand(m: Seq<u8>, p: int) -> bool {
    forall|i: int|
        0 <= i < count(m, p) ==> (#[trigger] buffer(m, p, i)).0 > 0 && in_bounds(
            m.len(),
            buffer(m, p, i).0,
            buffer(m, p, i).1,
        )
}

/// How many bytes the first `i` buffers of the message at `p` hold.
pub open spec fn room_before(m: Seq<u8>, p: int, i: int) -> int
    decreases i,
{
    if i <= 0 {
        0
    } else {
        room_before(m, p, i - 1) + buffer(m, p, i - 1).1
    }
}

proof fn list_is_read(m: Seq<u8>, p: int)
    requires
        is_message(m, p),
    ensures
        msg_buffers(m, p) matches Ok(v) && v.len() == count(m, p) && forall|i: int|
            0 <= i < v.len() ==> (#[trigger] v[i]).0 == buffer(m, p, i).0 && v[i].1 == buffer(
                m,
                p,
                i,
            ).1,
{
    pow256_values();
    let list = word_at(m, p + 8, 4) as int;
    let b = window(m, list, count(m, p) * 8);
    let v = iovecs(b);
    assert(b.len() == count(m, p) * 8);
    assert forall|i: int| 0 <= i < v.len() implies (#[trigger] v[i]).0 == buffer(m, p, i).0
        && v[i].1 == buffer(m, p, i).1 by {
        assert(window(b, i * 8, 4) =~= window(m, list + 8 * i, 4));
        assert(window(b, i * 8 + 4, 4) =~= window(m, list + 8 * i + 4, 4));
        le_of_value(window(m, list + 8 * i, 4));
        le_of_value(window(m, list + 8 * i + 4, 4));
    }
}

proof fn gathers(m: Seq<u8>, p: int, v: Seq<(i64, i64)>, n: int)
    requires
        buffers_stand(m, p),
        v.len() == count(m, p),
        forall|i: int|
            0 <= i < v.len() ==> (#[trigger] v[i]).0 == buffer(m, p, i).0 && v[i].1 == buffer(
                m,
                p,
                i,
            ).1,
        0 <= n <= v.len(),
    ensures
        gathered(m, v.take(n)) is Some,
        gathered(m, v.take(n))->Some_0.len() == room_before(m, p, n),
    decreases n,
{
    if n > 0 {
        gathers(m, p, v, n - 1);
        assert(v.take(n).drop_last() =~= v.take(n - 1));
        assert(v.take(n).last() == v[n - 1]);
        let b = buffer(m, p, n - 1);
        assert(b.0 > 0 && in_bounds(m.len(), b.0, b.1));
    }
}

proof fn gathers_at(m: Seq<u8>, p: int, v: Seq<(i64, i64)>, n: int, i: int, k: int)
    requires
        buffers_stand(m, p),
        v.len() == count(m, p),
        forall|i: int|
            0 <= i < v.len() ==> (#[trigger] v[i]).0 == buffer(m, p, i).0 && v[i].1 == buffer(
                m,
                p,
                i,
            ).1,
        0 <= i < n <= v.len(),
        0 <= k < buffer(m, p, i).1,
    ensures
        0 <= room_before(m, p, i) + k < room_before(m, p, n),
        gathered(m, v.take(n))->Some_0[room_before(m, p, i) + k] == m[buffer(m, p, i).0 + k],
    decreases n,
{
    gathers(m, p, v, n - 1);
    gathers(m, p, v, n);
    assert(v.take(n).drop_last() =~= v.take(n - 1));
    assert(v.take(n).last() == v[n - 1]);
    let b = buffer(m, p, n - 1);
    assert(b.0 > 0 && in_bounds(m.len(), b.0, b.1));
    if i < n - 1 {
        gathers_at(m, p, v, n - 1, i, k);
    }
}

/// Whether `g` is `f` but for the socket `n`, which is lent to the host: it has no
/// connection for as long, and does not block where `wait` says so or it did not before.
pub open spec fn lent_out(f: FdModel, g: FdModel, n: u64, dontwait: bool) -> bool {
    &&& !g.sockets[n].stream
    &&& g.sockets[n].nonblock == (f.sockets[n].nonblock || dontwait)
    &&& g.sockets[n].peek_buf == f.sockets[n].peek_buf
    &&& g.sockets[n].bound == f.sockets[n].bound
    &&& forall|k: u64| k != n && f.sockets.contains_key(k) ==> #[trigger] g.sockets[k] == f.sockets[k]
    &&& g.slots == f.slots && g.pipes == f.pipes && g.files == f.files
}

/// A message is sent whole: the bytes of its first buffer, then those of the second, and
/// so on to the last. Flag 0x40 lets the call not wait; the socket's own setting is kept
/// to be put back.
#[verifier::rlimit(60)]
pub proof fn a_message_is_sent_whole(
    f: FdModel,
    m: Seq<u8>,
    a: [i64; 6],
    n: u64,
    i: int,
    k: int,
)
    requires
        f.at(a[0] as int) == Some(Resource::Socket(n)),
        f.sockets.contains_key(n),
        f.sockets[n].stream,
        !f.sockets[n].shut_wr,
        is_message(m, a[1] as int),
        buffers_stand(m, a[1] as int),
        0 <= i < count(m, a[1] as int),
        0 <= k < buffer(m, a[1] as int, i).1,
    ensures
        ({
            let p = a[1] as int;
            let (step, g) = sendmsg_after(f, m, a);
            let dontwait = (a[2] as i32) & 0x40 != 0;
            &&& lent_out(f, g, n, dontwait)
            &&& step matches SendMsgModel::Send { socket, bytes, restore } && {
                &&& socket == n
                &&& bytes.len() == room_before(m, p, count(m, p))
                &&& 0 <= room_before(m, p, i) + k < bytes.len()
                &&& bytes[room_before(m, p, i) + k] == m[buffer(m, p, i).0 + k]
                &&& restore == (if dontwait {
                    Some(f.sockets[n].nonblock)
                } else {
                    None
                })
            }
        }),
{
    let p = a[1] as int;
    list_is_read(m, p);
    let v = msg_buffers(m, p)->Ok_0;
    gathers(m, p, v, v.len() as int);
    gathers_at(m, p, v, v.len() as int, i, k);
    assert(v.take(v.len() as int) =~= v);
    let dontwait = (a[2] as i32) & 0x40 != 0;
    let old_s = f.sockets[n];
    let t = SocketModel { stream: false, nonblock: old_s.nonblock || dontwait, ..old_s };
    let g = sendmsg_after(f, m, a).1;
    assert(g == f.with_socket(n, t));
    assert(g.sockets[n] == t);
}

/// A message is refused where the descriptor names no socket, where its header or a
/// buffer lies outside of the memory, and, with bytes to send, where the socket was shut
/// down for sending or has no connection. One without bytes is sent at once.
pub proof fn a_message_is_refused(f: FdModel, m: Seq<u8>, a: [i64; 6], n: u64)
    requires
        f.at(a[0] as int) == Some(Resource::Socket(n)),
    ensures
        ({
            let p = a[1] as int;
            let r = sendmsg_after(f, m, a);
            let s = f.sockets[n];
            let bytes = room_before(m, p, count(m, p)) > 0;
            &&& !in_bounds(m.len(), p, 32) ==> r == (SendMsgModel::Done(-14), f)
            &&& is_message(m, p) && buffers_stand(m, p) && !bytes ==> r == (
                SendMsgModel::Done(0),
                f,
            )
            &&& is_message(m, p) && buffers_stand(m, p) && bytes && s.shut_wr ==> r == (
                SendMsgModel::Done(-32),
                f,
            )
            &&& is_message(m, p) && buffers_stand(m, p) && bytes && !s.shut_wr && !s.stream ==> r
                == (SendMsgModel::Done(-107), f)
        }),
{
    let p = a[1] as int;
    if is_message(m, p) && buffers_stand(m, p) {
        list_is_read(m, p);
        let v = msg_buffers(m, p)->Ok_0;
        gathers(m, p, v, v.len() as int);
        assert(v.take(v.len() as int) =~= v);
    }
}

proof fn one_outside_is_none(m: Seq<u8>, v: Seq<(i64, i64)>, i: int)
    requires
        0 <= i < v.len(),
        v[i].0 != 0,
        v[i].1 > 0,
        !in_bounds(m.len(), v[i].0 as int, v[i].1 as int),
    ensures
        gathered(m, v) is None,
    decreases v.len(),
{
    if i < v.len() - 1 {
        one_outside_is_none(m, v.drop_last(), i);
    }
}

/// A message with a buffer outside of the memory, or with a list of buffers outside of
/// it, is refused, and nothing changes.
pub proof fn a_buffer_outside_is_refused(f: FdModel, m: Seq<u8>, a: [i64; 6], n: u64, i: int)
    requires
        f.at(a[0] as int) == Some(Resource::Socket(n)),
        in_bounds(m.len(), a[1] as int, 32),
        count(m, a[1] as int) > 0,
        word_at(m, a[1] + 8, 4) != 0,
        0 <= i < count(m, a[1] as int),
        is_message(m, a[1] as int) ==> {
            let b = buffer(m, a[1] as int, i);
            b.0 > 0 && b.1 > 0 && !in_bounds(m.len(), b.0, b.1)
        },
    ensures
        sendmsg_after(f, m, a) == (SendMsgModel::Done(-14), f),
        !is_message(m, a[1] as int) ==> recvmsg_after(f, m, a).step == RecvMsgModel::Done(-14)
            && recvmsg_after(f, m, a).fds == f && recvmsg_after(f, m, a).mem == m,
{
    let p = a[1] as int;
    if is_message(m, p) {
        list_is_read(m, p);
        one_outside_is_none(m, msg_buffers(m, p)->Ok_0, i);
    }
}

/// What names no socket cannot carry a message.
pub proof fn a_message_needs_a_socket(f: FdModel, m: Seq<u8>, a: [i64; 6])
    requires
        !(f.at(a[0] as int) matches Some(Resource::Socket(_))),
    ensures
        sendmsg_after(f, m, a) == (SendMsgModel::Done(-9), f),
        recvmsg_after(f, m, a).step == RecvMsgModel::Done(-9),
        recvmsg_after(f, m, a).fds == f,
        recvmsg_after(f, m, a).mem == m,
{
}

proof fn capacity_is_room(m: Seq<u8>, p: int, v: Seq<(i64, i64)>, n: int)
    requires
        v.len() == count(m, p),
        forall|i: int|
            0 <= i < v.len() ==> (#[trigger] v[i]).0 == buffer(m, p, i).0 && v[i].1 == buffer(
                m,
                p,
                i,
            ).1,
        0 <= n <= v.len(),
    ensures
        capacity(v.take(n)) == room_before(m, p, n),
    decreases n,
{
    if n > 0 {
        capacity_is_room(m, p, v, n - 1);
        last_adds(v.take(n));
        assert(v.take(n).drop_last() =~= v.take(n - 1));
    }
}

proof fn last_adds(v: Seq<(i64, i64)>)
    requires
        v.len() > 0,
    ensures
        capacity(v) == capacity(v.drop_last()) + v.last().1,
    decreases v.len(),
{
    if v.len() > 1 {
        last_adds(v.drop_first());
        assert(v.drop_first().drop_last() =~= v.drop_last().drop_first());
    } else {
        assert(v.drop_first() =~= Seq::empty());
        assert(v.drop_last() =~= Seq::empty());
    }
}

/// A message is received over the connection of the socket, as many bytes as its buffers
/// hold, and is handed those very buffers. A socket that was shut down for receiving is
/// at its end, and one without a connection is refused.
#[verifier::rlimit(60)]
pub proof fn a_message_is_received(f: FdModel, m: Seq<u8>, a: [i64; 6], n: u64, i: int)
    requires
        f.at(a[0] as int) == Some(Resource::Socket(n)),
        f.sockets.contains_key(n),
        f.sockets[n].peek_buf.len() == 0,
        is_message(m, a[1] as int),
        room_before(m, a[1] as int, count(m, a[1] as int)) > 0,
        0 <= i < count(m, a[1] as int),
    ensures
        ({
            let p = a[1] as int;
            let r = recvmsg_after(f, m, a);
            let s = f.sockets[n];
            let dontwait = (a[2] as i32) & 0x40 != 0;
            &&& r.mem == m
            &&& s.shut_rd ==> r.step == RecvMsgModel::Done(0) && r.fds == f
            &&& !s.shut_rd && !s.stream ==> r.step == RecvMsgModel::Done(-107) && r.fds == f
            &&& !s.shut_rd && s.stream ==> {
                &&& lent_out(f, r.fds, n, dontwait)
                &&& r.step matches RecvMsgModel::Recv { socket, len, spans, restore } && {
                    &&& socket == n
                    &&& len == room_before(m, p, count(m, p))
                    &&& spans.len() == count(m, p)
                    &&& spans[i].0 == buffer(m, p, i).0 && spans[i].1 == buffer(m, p, i).1
                    &&& restore == (if dontwait {
                        Some(s.nonblock)
                    } else {
                        None
                    })
                }
            }
        }),
{
    let p = a[1] as int;
    list_is_read(m, p);
    let v = msg_buffers(m, p)->Ok_0;
    capacity_is_room(m, p, v, v.len() as int);
    assert(v.take(v.len() as int) =~= v);
    let s = f.sockets[n];
    let dontwait = (a[2] as i32) & 0x40 != 0;
    if !s.shut_rd && s.stream {
        let t = SocketModel { stream: false, nonblock: s.nonblock || dontwait, ..s };
        let g = recvmsg_after(f, m, a).fds;
        assert(g == f.with_socket(n, t));
        assert(g.sockets[n] == t);
    }
}

/// A message needs a list of buffers to be received into.
pub proof fn a_message_needs_buffers(f: FdModel, m: Seq<u8>, a: [i64; 6], n: u64)
    requires
        f.at(a[0] as int) == Some(Resource::Socket(n)),
    ensures
        ({
            let p = a[1] as int;
            let r = recvmsg_after(f, m, a);
            &&& !in_bounds(m.len(), p, 32) ==> r.step == RecvMsgModel::Done(-14) && r.fds == f && r.mem
                == m
            &&& in_bounds(m.len(), p, 32) && (count(m, p) == 0 || word_at(m, p + 8, 4) == 0)
                ==> r.step == RecvMsgModel::Done(-22) && r.fds == f && r.mem == m
        }),
{
}

proof fn others_stay(m: Seq<u8>, v: Seq<(i64, i64)>, data: Seq<u8>, j: int)
    requires
        0 <= j < m.len(),
        forall|i: int|
            0 <= i < v.len() ==> 0 <= (#[trigger] v[i]).1 && !(v[i].0 <= j < v[i].0 + v[i].1),
    ensures
        scattered(m, v, data)[j] == m[j],
        scattered(m, v, data).len() == m.len(),
    decreases v.len(),
{
    if v.len() > 0 {
        let part = front(data, v[0].1 as int);
        let m1 = if part.len() == 0 {
            m
        } else {
            written(m, v[0].0 as int, part)
        };
        assert(0 <= v[0].1 && !(v[0].0 <= j < v[0].0 + v[0].1));
        let w = v.drop_first();
        assert forall|i: int| 0 <= i < w.len() implies 0 <= (#[trigger] w[i]).1 && !(w[i].0 <= j
            < w[i].0 + w[i].1) by {
            assert(w[i] == v[i + 1]);
        }
        assert(m1[j] == m[j]);
        others_stay(m1, w, data.skip(part.len() as int), j);
    }
}

proof fn lands(m: Seq<u8>, v: Seq<(i64, i64)>, data: Seq<u8>, i: int, k: int)
    requires
        separate(m.len(), v),
        0 <= i < v.len(),
        0 <= k < v[i].1,
        0 <= capacity(v.take(i)),
        capacity(v.take(i)) + k < data.len(),
    ensures
        scattered(m, v, data)[v[i].0 + k] == data[capacity(v.take(i)) + k],
        scattered(m, v, data).len() == m.len(),
    decreases v.len(),
{
    let part = front(data, v[0].1 as int);
    let m1 = if part.len() == 0 {
        m
    } else {
        written(m, v[0].0 as int, part)
    };
    let w = v.drop_first();
    let rest = data.skip(part.len() as int);
    assert(v[0].0 > 0);
    if i == 0 {
        assert(v.take(0) =~= Seq::empty());
        let j = v[0].0 + k;
        assert(m1[j] == data[k]);
        assert forall|x: int| 0 <= x < w.len() implies 0 <= (#[trigger] w[x]).1 && !(w[x].0 <= j
            < w[x].0 + w[x].1) by {
            assert(w[x] == v[x + 1]);
        }
        others_stay(m1, w, rest, j);
    } else {
        assert(v.take(i).drop_first() =~= w.take(i - 1));
        assert(v.take(i)[0] == v[0]);
        assert(w[i - 1] == v[i]);
        nonnegative(w.take(i - 1));
        assert(separate(m1.len(), w)) by {
            assert forall|x: int| 0 <= x < w.len() implies 0 < (#[trigger] w[x]).0 && 0 <= w[x].1
                && in_bounds(m.len(), w[x].0 as int, w[x].1 as int) by {
                assert(w[x] == v[x + 1]);
            }
            assert forall|x: int, y: int| 0 <= x < y < w.len() implies (#[trigger] w[x]).0 + w[x].1
                <= (#[trigger] w[y]).0 || w[y].0 + w[y].1 <= w[x].0 by {
                assert(w[x] == v[x + 1]);
                assert(w[y] == v[y + 1]);
            }
        }
        assert(part.len() == v[0].1);
        lands(m1, w, rest, i - 1, k);
    }
}

proof fn nonnegative(v: Seq<(i64, i64)>)
    requires
        forall|i: int| 0 <= i < v.len() ==> 0 <= (#[trigger] v[i]).1,
    ensures
        0 <= capacity(v),
    decreases v.len(),
{
    if v.len() > 0 {
        let w = v.drop_first();
        assert forall|i: int| 0 <= i < w.len() implies 0 <= (#[trigger] w[i]).1 by {
            assert(w[i] == v[i + 1]);
        }
        nonnegative(w);
        assert(v[0].1 >= 0);
    }
}

/// What was received fills the first buffer before the second, and so on; the header is
/// told that no control data came, and no byte outside of the buffers changes but that.
/// The socket has its connection back, and blocks as it did.
#[verifier::rlimit(60)]
pub proof fn a_received_message_arrives(
    f: FdModel,
    m: Seq<u8>,
    a: [i64; 6],
    v: Seq<(i64, i64)>,
    restore: Option<bool>,
    d: Seq<u8>,
    n: u64,
    i: int,
    k: int,
    j: int,
)
    requires
        f.at(a[0] as int) == Some(Resource::Socket(n)),
        f.sockets.contains_key(n),
        separate(m.len(), v),
        in_bounds(m.len(), a[1] as int, 32),
        forall|x: int|
            0 <= x < v.len() ==> (#[trigger] v[x]).0 + v[x].1 <= a[1] || a[1] + 32 <= v[x].0,
        0 <= i < v.len(),
        0 <= k < v[i].1,
        capacity(v.take(i)) + k < d.len(),
        0 <= j < m.len(),
    ensures
        ({
            let r = recvmsg_done_after(f, m, a, v, restore, Some(d));
            let t = r.fds.sockets[n];
            let s = f.sockets[n];
            &&& r.ret == d.len()
            &&& r.mem[v[i].0 + k] == d[capacity(v.take(i)) + k]
            &&& word_at(r.mem, a[1] + 20, 4) == 0
            &&& (forall|x: int| 0 <= x < v.len() ==> !((#[trigger] v[x]).0 <= j < v[x].0 + v[x].1))
                && !(a[1] + 20 <= j < a[1] + 24) ==> r.mem[j] == m[j]
            &&& t.stream
            &&& restore matches Some(b) ==> t.nonblock == b
            &&& restore is None ==> t.nonblock == s.nonblock
            &&& (a[2] as i32) & 0x2 == 0 ==> t.peek_buf == s.peek_buf
            &&& (a[2] as i32) & 0x2 != 0 ==> t.peek_buf == s.peek_buf + d
            &&& t.bound == s.bound && t.shut_rd == s.shut_rd && t.shut_wr == s.shut_wr
            &&& r.fds.slots == f.slots && r.fds.pipes == f.pipes && r.fds.files == f.files
        }),
{
    assert forall|x: int| 0 <= x < v.take(i).len() implies 0 <= (#[trigger] v.take(i)[x]).1 by {
        assert(v.take(i)[x] == v[x]);
    }
    nonnegative(v.take(i));
    lands(m, v, d, i, k);
    pow256_values();
    le_round_trip(0, 4);
    let r = recvmsg_done_after(f, m, a, v, restore, Some(d));
    let m1 = scattered(m, v, d);
    assert(r.mem == written(m1, a[1] + 20, le(0, 4)));
    assert(window(r.mem, a[1] + 20, 4) =~= le(0, 4));
    assert(v[i].0 + v[i].1 <= a[1] || a[1] + 32 <= v[i].0);
    if forall|x: int| 0 <= x < v.len() ==> !((#[trigger] v[x]).0 <= j < v[x].0 + v[x].1) {
        others_stay(m, v, d, j);
    }
    let s = f.sockets[n];
    let t1 = SocketModel {
        stream: true,
        nonblock: match restore {
            Some(b) => b,
            None => s.nonblock,
        },
        ..s
    };
    let g = f.with_socket(n, t1);
    assert(g.sockets[n] == t1);
    assert(g.at(a[0] as int) == Some(Resource::Socket(n)));
    if (a[2] as i32) & 0x2 != 0 {
        let t2 = SocketModel { peek_buf: s.peek_buf + d, ..t1 };
        assert(r.fds == g.with_socket(n, t2));
        assert(r.fds.sockets[n] == t2);
    } else {
        assert(r.fds == g);
    }
}

/// A receive that failed leaves the memory as it was, and the socket its connection.
pub proof fn a_failed_message_arrives_nowhere(
    f: FdModel,
    m: Seq<u8>,
    a: [i64; 6],
    v: Seq<(i64, i64)>,
    restore: Option<bool>,
    n: u64,
)
    requires
        f.at(a[0] as int) == Some(Resource::Socket(n)),
        f.sockets.contains_key(n),
    ensures
        ({
            let r = recvmsg_done_after(f, m, a, v, restore, None);
            &&& r.ret == -5
            &&& r.mem == m
            &&& r.fds.sockets[n].stream
            &&& r.fds.sockets[n].peek_buf == f.sockets[n].peek_buf
        }),
{
}

/// Bytes that were looked at before are received first, in order, as many as the buffers
/// hold; a look (flag 2) leaves them, and a receive takes those it gave. The connection
/// is left alone.
#[verifier::rlimit(60)]
pub proof fn looked_at_messages_come_first(
    f: FdModel,
    m: Seq<u8>,
    a: [i64; 6],
    n: u64,
    i: int,
    k: int,
)
    requires
        f.at(a[0] as int) == Some(Resource::Socket(n)),
        f.sockets.contains_key(n),
        f.sockets[n].peek_buf.len() > 0,
        is_message(m, a[1] as int),
        room_before(m, a[1] as int, count(m, a[1] as int)) > 0,
        separate(m.len(), msg_buffers(m, a[1] as int)->Ok_0),
        forall|x: int|
            0 <= x < count(m, a[1] as int) ==> (#[trigger] buffer(m, a[1] as int, x)).0 + buffer(
                m,
                a[1] as int,
                x,
            ).1 <= a[1] || a[1] + 32 <= buffer(m, a[1] as int, x).0,
        0 <= i < count(m, a[1] as int),
        0 <= k < buffer(m, a[1] as int, i).1,
        room_before(m, a[1] as int, i) + k < f.sockets[n].peek_buf.len(),
    ensures
        ({
            let p = a[1] as int;
            let r = recvmsg_after(f, m, a);
            let b = f.sockets[n].peek_buf;
            let room = room_before(m, p, count(m, p));
            let given = if room < b.len() {
                room
            } else {
                b.len() as int
            };
            &&& r.step == RecvMsgModel::Done(given)
            &&& 0 <= room_before(m, p, i)
            &&& r.mem[buffer(m, p, i).0 + k] == b[room_before(m, p, i) + k]
            &&& (a[2] as i32) & 0x2 != 0 ==> r.fds == f
            &&& (a[2] as i32) & 0x2 == 0 ==> r.fds.sockets[n].peek_buf == b.skip(given)
            &&& r.fds.sockets[n].stream == f.sockets[n].stream
            &&& r.fds.sockets[n].nonblock == f.sockets[n].nonblock
        }),
{
    let p = a[1] as int;
    list_is_read(m, p);
    let v = msg_buffers(m, p)->Ok_0;
    capacity_is_room(m, p, v, v.len() as int);
    assert(v.take(v.len() as int) =~= v);
    capacity_is_room(m, p, v, i);
    assert forall|x: int| 0 <= x < v.take(i).len() implies 0 <= (#[trigger] v.take(i)[x]).1 by {
        assert(v.take(i)[x] == v[x]);
    }
    nonnegative(v.take(i));
    let b = f.sockets[n].peek_buf;
    let data = front(b, capacity(v));
    room_grows(m, p, i, count(m, p));
    lands(m, v, data, i, k);
    let m1 = scattered(m, v, data);
    let r = recvmsg_after(f, m, a);
    assert(r.mem == written(m1, p + 20, le(0, 4)));
    assert(buffer(m, p, i).0 + buffer(m, p, i).1 <= p || p + 32 <= buffer(m, p, i).0);
    assert(v[i].0 == buffer(m, p, i).0);
    if (a[2] as i32) & 0x2 == 0 {
        let t = SocketModel { peek_buf: b.skip(data.len() as int), ..f.sockets[n] };
        assert(r.fds == f.with_socket(n, t));
        assert(r.fds.sockets[n] == t);
    }
}

proof fn room_grows(m: Seq<u8>, p: int, i: int, n: int)
    requires
        0 <= i < n,
        buffer(m, p, i).1 >= 0,
    ensures
        room_before(m, p, i) + buffer(m, p, i).1 <= room_before(m, p, n),
    decreases n - i,
{
    if i + 1 < n {
        room_grows(m, p, i, n - 1);
    }
}

/// The end of a send answers with the bytes that went, or with -5 where the host failed,
/// and the socket has its connection back.
pub proof fn a_send_ends(f: FdModel, fd: int, n: u64, unix: bool, sent: Option<usize>)
    requires
        f.at(fd) == Some(Resource::Socket(n)),
        f.sockets.contains_key(n),
    ensures
        ({
            let (r, g) = sendto_done_after(f, fd, unix, sent);
            let (q, h) = sendmsg_done_after(f, fd, None, sent);
            let answer = match sent {
                Some(x) => x as int,
                None => -5,
            };
            &&& r == answer && q == answer
            &&& unix ==> g.sockets[n].stream_unix && g.sockets[n].stream == f.sockets[n].stream
            &&& !unix ==> g.sockets[n].stream && g.sockets[n].stream_unix
                == f.sockets[n].stream_unix
            &&& h.sockets[n].stream
            &&& g.sockets[n].nonblock == f.sockets[n].nonblock
            &&& h.sockets[n].nonblock == f.sockets[n].nonblock
            &&& g.slots == f.slots && h.slots == f.slots
        }),
{
}

/// A message that was sent without waiting leaves the socket blocking or not as it was
/// before.
pub proof fn blocking_is_put_back(f: FdModel, fd: int, n: u64, was: bool, sent: Option<usize>)
    requires
        f.at(fd) == Some(Resource::Socket(n)),
        f.sockets.contains_key(n),
    ensures
        sendmsg_done_after(f, fd, Some(was), sent).1.sockets[n].nonblock == was,
        sendmsg_done_after(f, fd, Some(was), sent).1.sockets[n].stream,
{
}

/// A Unix socket is bound where nothing is, or where a socket was left over, which goes
/// first, whoever takes it away. Anything else at the path is in the way.
pub proof fn only_leftover_sockets_go(
    found: Result<FileKind, IoErrorKind>,
    removed: Result<(), IoErrorKind>,
)
    ensures
        unix_bind_found(found) == UnixBind::Unlink <==> found == Ok::<FileKind, IoErrorKind>(
            FileKind::Socket,
        ),
        unix_bind_found(found) == UnixBind::Listen <==> found == Err::<FileKind, IoErrorKind>(
            IoErrorKind::NotFound,
        ),
        found matches Ok(k) && k != FileKind::Socket ==> unix_bind_found(found) == UnixBind::Done(
            (-98) as i64,
        ),
        found matches Err(e) && e == IoErrorKind::PermissionDenied ==> unix_bind_found(found)
            == UnixBind::Done((-13) as i64),
        unix_bind_cleared(removed) == UnixBind::Listen <==> (removed is Ok || removed
            == Err::<(), IoErrorKind>(IoErrorKind::NotFound)),
        unix_bind_cleared(removed) != UnixBind::Listen ==> unix_bind_cleared(removed)
            == UnixBind::Done((-98) as i64),
{
}

} // verus!
