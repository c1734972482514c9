//! Resolving names.

use vstd::prelude::*;
use crate::bytes::int32;
use crate::bytes::le;
use crate::bytes::le_len;
use crate::bytes::le_round_trip;
use crate::bytes::pow256_values;
use crate::bytes::word32;
use crate::ip::digit;
use crate::ip::digits_value;
use crate::ip::IpModel;
use crate::mem::in_bounds;
use crate::mem::is_text;
use crate::mem::text_at;
use crate::mem::text_is_unique;
use crate::mem::window;
use crate::mem::word_at;
use crate::sys::resolver::answered;
use crate::sys::resolver::chain_image;
use crate::sys::resolver::filtered;
use crate::sys::resolver::latin;
use crate::sys::resolver::node_image;
use crate::sys::resolver::node_image_len;
use crate::sys::resolver::node_offset;
use crate::sys::resolver::node_stands;
use crate::sys::resolver::proper_ip;
use crate::sys::resolver::query_of;
use crate::sys::resolver::resolve_after;
use crate::sys::resolver::sock_image;
use crate::sys::resolver::NodeHints;
use crate::sys::resolver::QueryModel;
use crate::sys::resolver::ResolveModel;
use crate::sys::resolver::ResolverModel;

verus! {

broadcast use le_len;

/// Whether every byte is a decimal digit.
pub open spec fn is_decimal(s: Seq<u8>) -> bool {
    forall|i: int| 0 <= i < s.len() ==> 0x30 <= #[trigger] s[i] <= 0x39
}

/// The number that decimal digits stand for.
pub open spec fn decimal(s: Seq<u8>) -> int
    decreases s.len(),
{
    if s.len() == 0 {
        0
    } else {
        10 * decimal(s.drop_last()) + (s.last() - 0x30)
    }
}

proof fn digits_are_decimal(s: Seq<u8>)
    requires
        is_decimal(s),
    ensures
        digits_value(latin(s), 10) == decimal(s),
        crate::ip::all_digits(latin(s), 10),
    decreases s.len(),
{
    let t = latin(s);
    assert forall|i: int| 0 <= i < t.len() implies (digit(#[trigger] t[i]) matches Some(d) && d
        < 10) by {
        assert(t[i] == s[i] as char);
        assert(0x30 <= s[i] <= 0x39);
    }
    if s.len() > 0 {
        digits_are_decimal(s.drop_last());
        assert(t.drop_last() =~= latin(s.drop_last()));
        assert(t.last() == s.last() as char);
        assert(0x30 <= s[s.len() - 1] <= 0x39);
    }
}

/// The service is a port in decimal digits: where the request is taken, its port is the
/// number that the text stands for. A number above 65535 and a text that is no number
/// are refused; a plus sign may stand in front.
pub proof fn a_service_is_a_port(m: Seq<u8>, a: [i64; 6], s: Seq<u8>)
    requires
        a[2] as u32 != 0,
        is_text(m, (a[2] as u32) as int, 64, s),
    ensures
        ({
            let n = if s.len() > 0 && s[0] == 0x2b {
                s.drop_first()
            } else {
                s
            };
            let good = n.len() > 0 && is_decimal(n) && decimal(n) <= 65535;
            &&& good ==> (query_of(m, a) matches Ok(q) ==> q.hints.port == decimal(n))
            &&& !good ==> query_of(m, a) is Err
            &&& a[0] as u32 == 0 && a[4] as u32 == 0 ==> query_of(m, a) == (if good {
                Ok(
                    QueryModel {
                        name: Seq::empty(),
                        family: 0,
                        hints: NodeHints {
                            flags: 0,
                            socktype: 1,
                            protocol: 0,
                            port: decimal(n) as u16,
                        },
                        res_ptr: a[5] as u32,
                    },
                )
            } else {
                Err((-8) as i64)
            })
        }),
{
    let p = (a[2] as u32) as int;
    let t = text_at(m, p, 64)->Some_0;
    text_is_unique(m, p, 64, s, t);
    let c = latin(s);
    let n = if s.len() > 0 && s[0] == 0x2b {
        s.drop_first()
    } else {
        s
    };
    let d = if c.len() > 0 && c[0] == '+' {
        c.drop_first()
    } else {
        c
    };
    if s.len() > 0 {
        assert(c[0] == s[0] as char);
        assert('+' as u32 == 0x2b);
        assert((s[0] as char) as u32 == s[0]);
    }
    assert(d =~= latin(n));
    if is_decimal(n) {
        digits_are_decimal(n);
    } else {
        let i = choose|i: int| 0 <= i < n.len() && !(0x30 <= #[trigger] n[i] <= 0x39);
        assert(d[i] == n[i] as char);
        assert((n[i] as char) as u32 == n[i]);
        assert(!(digit(d[i]) matches Some(x) && x < 10));
    }
}

/// Whether a request is refused with this error.
pub open spec fn refused(r: Result<QueryModel, i64>, e: int) -> bool {
    r matches Err(x) && x == e
}

/// Without a service the port is zero; with neither a name nor a service there is nothing
/// to resolve.
pub proof fn a_request_needs_a_name_or_a_service(m: Seq<u8>, a: [i64; 6])
    ensures
        a[0] as u32 == 0 && a[2] as u32 == 0 ==> refused(query_of(m, a), -2),
        a[2] as u32 == 0 ==> (query_of(m, a) matches Ok(q) ==> q.hints.port == 0),
        query_of(m, a) matches Ok(q) ==> q.res_ptr == a[5] as u32,
{
}

/// The name of a request is the text at its first argument, and no text there is an
/// error.
pub proof fn a_request_is_for_its_name(m: Seq<u8>, a: [i64; 6], s: Seq<u8>)
    requires
        a[0] as u32 != 0,
    ensures
        is_text(m, (a[0] as u32) as int, 256, s) ==> (query_of(m, a) matches Ok(q) ==> q.name == s),
        is_text(m, (a[0] as u32) as int, 256, s) && a[2] as u32 == 0 && a[4] as u32 == 0
            ==> query_of(m, a) is Ok,
        text_at(m, (a[0] as u32) as int, 256) is None ==> refused(query_of(m, a), -11),
{
    let p = (a[0] as u32) as int;
    if is_text(m, p, 256, s) {
        text_is_unique(m, p, 256, s, text_at(m, p, 256)->Some_0);
    }
}

/// The hints of a request are the first four words of its record: flags, family, socket
/// type, where zero means one, and protocol. Numeric flags (0x4, 0x400), families but 0,
/// 2 and 10, and types above two are refused, each with its own error. Without a record
/// there are no hints.
pub proof fn hints_are_heeded(m: Seq<u8>, a: [i64; 6], s: Seq<u8>)
    requires
        a[0] as u32 != 0,
        is_text(m, (a[0] as u32) as int, 256, s),
        a[2] as u32 == 0,
    ensures
        ({
            let h = (a[4] as u32) as int;
            let flags = int32(word_at(m, h, 4));
            let family = int32(word_at(m, h + 4, 4));
            let kind = int32(word_at(m, h + 8, 4));
            let protocol = int32(word_at(m, h + 12, 4));
            let numeric = (flags as i32) & 0x404 != 0;
            let r = query_of(m, a);
            &&& h == 0 ==> (r matches Ok(q) && q.family == 0 && q.hints.flags == 0
                && q.hints.socktype == 1 && q.hints.protocol == 0)
            &&& h != 0 && !in_bounds(m.len(), h, 32) ==> refused(r, -11)
            &&& h != 0 && in_bounds(m.len(), h, 32) ==> {
                &&& numeric ==> refused(r, -1)
                &&& !numeric && family != 0 && family != 2 && family != 10 ==> refused(r, -6)
                &&& !numeric && (family == 0 || family == 2 || family == 10) && !(0 <= kind <= 2)
                    ==> refused(r, -7)
                &&& !numeric && (family == 0 || family == 2 || family == 10) && 0 <= kind <= 2 ==> (
                r matches Ok(q) && q.family == family && q.hints.flags == flags && q.hints.protocol
                    == protocol && q.hints.socktype == (if kind == 0 {
                    1
                } else {
                    kind
                }))
            }
        }),
{
    let p = (a[0] as u32) as int;
    text_is_unique(m, p, 256, s, text_at(m, p, 256)->Some_0);
    let h = (a[4] as u32) as int;
    assert(4i32 | 0x400i32 == 0x404) by (bit_vector);
    pow256_values();
    if h != 0 && in_bounds(m.len(), h, 32) {
        crate::bytes::le_of_value(window(m, h, 4));
        crate::bytes::le_of_value(window(m, h + 4, 4));
        crate::bytes::le_of_value(window(m, h + 8, 4));
        crate::bytes::le_of_value(window(m, h + 12, 4));
    }
}

/// The addresses that are given out come in the order in which they were found: those of
/// two lists one after the other are those of the first and then those of the second. A
/// single address is given out where the family (2 for IPv4, 10 for IPv6, anything for
/// another) is its own and no denied address equals it.
pub proof fn addresses_keep_their_order(
    first: Seq<IpModel>,
    second: Seq<IpModel>,
    family: i32,
    denylist: Seq<IpModel>,
    ip: IpModel,
)
    ensures
        filtered(first + second, family, denylist) == filtered(first, family, denylist) + filtered(
            second,
            family,
            denylist,
        ),
        ({
            let wanted = (family == 2 ==> ip is V4) && (family == 10 ==> ip is V6);
            let denied = exists|i: int| 0 <= i < denylist.len() && #[trigger] denylist[i] == ip;
            filtered(seq![ip], family, denylist) == (if wanted && !denied {
                seq![ip]
            } else {
                Seq::empty()
            })
        }),
        filtered(Seq::empty(), family, denylist) == Seq::<IpModel>::empty(),
    decreases second.len(),
{
    if second.len() > 0 {
        let t = second.drop_last();
        addresses_keep_their_order(first, t, family, denylist, ip);
        assert((first + second).drop_last() =~= first + t);
        assert((first + second).last() == second.last());
        let x = filtered(first, family, denylist);
        let y = filtered(t, family, denylist);
        assert(x + y.push(second.last()) =~= (x + y).push(second.last()));
    } else {
        assert(first + second =~= first);
        assert(filtered(first, family, denylist) + filtered(second, family, denylist) =~= filtered(
            first,
            family,
            denylist,
        ));
    }
    let one = seq![ip];
    assert(one.drop_last() =~= Seq::empty());
    assert(filtered(one.drop_last(), family, denylist) =~= Seq::empty());
    assert(filtered(one, family, denylist) =~= (if crate::sys::resolver::allowed(
        ip,
        family,
        denylist,
    ) {
        seq![ip]
    } else {
        Seq::empty()
    }));
    assert(denylist.contains(ip) == exists|i: int|
        0 <= i < denylist.len() && #[trigger] denylist[i] == ip);
}

/// Where the node for the `i`-th address stands, from the start of the scratch area: 48
/// bytes for each IPv4 address before it, and 60 for each IPv6 one.
pub open spec fn place(addrs: Seq<IpModel>, i: int) -> int
    decreases i,
{
    if i <= 0 {
        0
    } else {
        place(addrs, i - 1) + (if addrs[i - 1] is V4 {
            48int
        } else {
            60int
        })
    }
}

proof fn places(addrs: Seq<IpModel>, i: int)
    ensures
        place(addrs, i) == node_offset(addrs, i),
    decreases i,
{
    if i > 0 {
        places(addrs, i - 1);
    }
}

/// Whether the node at `at` is one for this address: the words of the request, the
/// family, the size of the socket address, its offset, no canonical name and the next
/// node; then the socket address with its family, its port, the high byte first, and the
/// bytes of the address.
pub open spec fn node_told(
    m: Seq<u8>,
    at: int,
    off: int,
    h: NodeHints,
    ip: IpModel,
    next: int,
) -> bool {
    &&& word_at(m, at, 4) == word32(h.flags)
    &&& word_at(m, at + 8, 4) == word32(h.socktype)
    &&& word_at(m, at + 12, 4) == word32(h.protocol)
    &&& word_at(m, at + 20, 4) == off + 32
    &&& word_at(m, at + 24, 4) == 0
    &&& word_at(m, at + 28, 4) == next
    &&& m[at + 33] == 0
    &&& m[at + 34] == h.port / 256
    &&& m[at + 35] == h.port % 256
    &&& match ip {
        IpModel::V4(b) => {
            &&& word_at(m, at + 4, 4) == 2
            &&& word_at(m, at + 16, 4) == 16
            &&& m[at + 32] == 2
            &&& forall|k: int| 0 <= k < 4 ==> #[trigger] m[at + 36 + k] == b[k]
            &&& forall|k: int| 40 <= k < 48 ==> #[trigger] m[at + k] == 0
        },
        IpModel::V6(b) => {
            &&& word_at(m, at + 4, 4) == 10
            &&& word_at(m, at + 16, 4) == 28
            &&& m[at + 32] == 10
            &&& forall|k: int| 0 <= k < 16 ==> #[trigger] m[at + 40 + k] == b[k]
            &&& forall|k: int| 36 <= k < 40 ==> #[trigger] m[at + k] == 0
            &&& forall|k: int| 56 <= k < 60 ==> #[trigger] m[at + k] == 0
        },
    }
}

proof fn short_words()
    ensures
        le(2, 2) == seq![2u8, 0u8],
        le(10, 2) == seq![10u8, 0u8],
{
    reveal_with_fuel(le, 3);
    assert(le(2, 2) =~= seq![2u8, 0u8]);
    assert(le(10, 2) =~= seq![10u8, 0u8]);
}

proof fn node_reads(
    m: Seq<u8>,
    at: int,
    off: nat,
    h: NodeHints,
    ip: IpModel,
    next: nat,
)
    requires
        proper_ip(ip),
        off + 32 <= u32::MAX,
        next <= u32::MAX,
        0 <= at,
        at + node_image(ip, h, off, next).len() <= m.len(),
        m.subrange(at, at + node_image(ip, h, off, next).len()) == node_image(ip, h, off, next),
    ensures
        node_told(m, at, off as int, h, ip, next as int),
{
    let n = node_image(ip, h, off, next);
    node_image_len(ip, h, off, next);
    short_words();
    pow256_values();
    le_round_trip(word32(h.flags), 4);
    le_round_trip(word32(h.socktype), 4);
    le_round_trip(word32(h.protocol), 4);
    le_round_trip(off + 32, 4);
    le_round_trip(0, 4);
    le_round_trip(next, 4);
    le_round_trip(2, 4);
    le_round_trip(10, 4);
    le_round_trip(16, 4);
    le_round_trip(28, 4);
    assert forall|k: int| 0 <= k < n.len() implies #[trigger] m[at + k] == n[k] by {
        assert(m.subrange(at, at + n.len() as int)[k] == m[at + k]);
    }
    assert(window(m, at, 4) =~= n.subrange(0, 4));
    assert(n.subrange(0, 4) =~= le(word32(h.flags), 4));
    assert(window(m, at + 4, 4) =~= n.subrange(4, 8));
    assert(n.subrange(4, 8) =~= le(crate::sys::resolver::family_of(ip), 4));
    assert(window(m, at + 8, 4) =~= n.subrange(8, 12));
    assert(n.subrange(8, 12) =~= le(word32(h.socktype), 4));
    assert(window(m, at + 12, 4) =~= n.subrange(12, 16));
    assert(n.subrange(12, 16) =~= le(word32(h.protocol), 4));
    assert(window(m, at + 16, 4) =~= n.subrange(16, 20));
    assert(n.subrange(16, 20) =~= le(crate::sys::resolver::sock_size(ip), 4));
    assert(window(m, at + 20, 4) =~= n.subrange(20, 24));
    assert(n.subrange(20, 24) =~= le(off + 32, 4));
    assert(window(m, at + 24, 4) =~= n.subrange(24, 28));
    assert(n.subrange(24, 28) =~= le(0, 4));
    assert(window(m, at + 28, 4) =~= n.subrange(28, 32));
    assert(n.subrange(28, 32) =~= le(next, 4));
    let t = sock_image(ip, h.port);
    assert forall|k: int| 0 <= k < t.len() implies #[trigger] n[32 + k] == t[k] by {}
    assert(m[at + 32] == t[0] && m[at + 33] == t[1] && m[at + 34] == t[2] && m[at + 35] == t[3]) by {
        assert(n[32int + 0int] == t[0]);
        assert(n[32int + 1int] == t[1]);
        assert(n[32int + 2int] == t[2]);
        assert(n[32int + 3int] == t[3]);
    }
    match ip {
        IpModel::V4(b) => {
            assert forall|k: int| 0 <= k < 4 implies #[trigger] m[at + 36 + k] == b[k] by {
                assert(m[at + (36 + k)] == n[36 + k]);
                assert(n[32 + (4 + k)] == t[4 + k]);
            }
            assert forall|k: int| 40 <= k < 48 implies #[trigger] m[at + k] == 0 by {
                assert(n[32 + (k - 32)] == t[k - 32]);
            }
        },
        IpModel::V6(b) => {
            assert forall|k: int| 0 <= k < 16 implies #[trigger] m[at + 40 + k] == b[k] by {
                assert(m[at + (40 + k)] == n[40 + k]);
                assert(n[32 + (8 + k)] == t[8 + k]);
            }
            assert forall|k: int| 36 <= k < 40 implies #[trigger] m[at + k] == 0 by {
                assert(n[32 + (k - 32)] == t[k - 32]);
            }
            assert forall|k: int| 56 <= k < 60 implies #[trigger] m[at + k] == 0 by {
                assert(n[32 + (k - 32)] == t[k - 32]);
            }
        },
    }
}

/// A request that is answered gives as many addresses as may be given out. From byte
/// 8192 of the memory on there is a node for each, in order, with the hints and the port
/// of the request; the last leads nowhere, and the offset of the first, zero, goes where
/// the request wants it.
pub proof fn an_answer_lists_the_addresses(
    m: Seq<u8>,
    q: QueryModel,
    addrs: Seq<IpModel>,
    denylist: Seq<IpModel>,
    i: int,
)
    requires
        ({
            let given = filtered(addrs, q.family, denylist);
            &&& forall|k: int| 0 <= k < given.len() ==> proper_ip(#[trigger] given[k])
            &&& 0 <= i < given.len()
            &&& answered(m, q, addrs, denylist).0 >= 0
            &&& q.res_ptr + 4 <= 8192 || 8192 + place(given, given.len() as int) <= q.res_ptr
        }),
    ensures
        ({
            let given = filtered(addrs, q.family, denylist);
            let (r, after) = answered(m, q, addrs, denylist);
            &&& r == given.len()
            &&& word_at(after, q.res_ptr as int, 4) == 0
            &&& node_told(
                after,
                8192 + place(given, i),
                place(given, i),
                q.hints,
                given[i],
                if i + 1 < given.len() {
                    place(given, i + 1)
                } else {
                    0
                },
            )
            &&& after.len() == m.len()
            &&& forall|k: int|
                0 <= k < m.len() && !(8192 <= k < 8192 + place(given, given.len() as int)) && !(
                q.res_ptr <= k < q.res_ptr + 4) ==> #[trigger] after[k] == m[k]
        }),
{
    let given = filtered(addrs, q.family, denylist);
    let image = chain_image(given, q.hints, 0);
    let after = answered(m, q, addrs, denylist).1;
    let n = given.len() as int;
    places(given, i);
    places(given, i + 1);
    places(given, n);
    chain_ends(given, q.hints, 0);
    node_stands(given, q.hints, 0, i);
    if i + 1 < n {
        node_stands(given, q.hints, 0, i + 1);
    }
    let o = node_offset(given, i);
    let at = 8192 + o as int;
    let next = if i + 1 < n {
        node_offset(given, i + 1)
    } else {
        0
    };
    let node = node_image(given[i], q.hints, o, next);
    node_image_len(given[i], q.hints, o, next);
    pow256_values();
    le_round_trip(0, 4);
    assert(window(after, q.res_ptr as int, 4) =~= le(0, 4));
    assert(after.subrange(at, at + node.len() as int) =~= image.subrange(
        o as int,
        o as int + node.len() as int,
    ));
    node_reads(after, at, o, q.hints, given[i], next);
}

proof fn chain_ends(addrs: Seq<IpModel>, h: NodeHints, base: nat)
    requires
        forall|k: int| 0 <= k < addrs.len() ==> proper_ip(#[trigger] addrs[k]),
    ensures
        chain_image(addrs, h, base).len() == node_offset(addrs, addrs.len() as int),
    decreases addrs.len(),
{
    if addrs.len() > 0 {
        let rest = addrs.drop_first();
        let end = base + crate::sys::resolver::node_size(addrs[0]);
        assert(proper_ip(addrs[0]));
        assert forall|k: int| 0 <= k < rest.len() implies proper_ip(#[trigger] rest[k]) by {
            assert(rest[k] == addrs[k + 1]);
        }
        chain_ends(rest, h, end);
        crate::sys::resolver::node_offset_shifts(addrs, addrs.len() as int);
        node_image_len(
            addrs[0],
            h,
            base,
            if addrs.len() > 1 {
                end
            } else {
                0
            },
        );
    } else {
        assert(node_offset(addrs, 0) == 0);
    }
}

/// When an answer fails: with minus two where no address may be given out, with minus ten
/// where the nodes take more than 4096 bytes, and with minus eleven where they, or the
/// offset of the first, have no place in the memory.
pub proof fn an_answer_fails(
    m: Seq<u8>,
    q: QueryModel,
    addrs: Seq<IpModel>,
    denylist: Seq<IpModel>,
)
    requires
        forall|k: int|
            0 <= k < filtered(addrs, q.family, denylist).len() ==> proper_ip(
                #[trigger] filtered(addrs, q.family, denylist)[k],
            ),
    ensures
        ({
            let given = filtered(addrs, q.family, denylist);
            let size = place(given, given.len() as int);
            let (r, after) = answered(m, q, addrs, denylist);
            &&& given.len() == 0 ==> r == -2 && after == m
            &&& given.len() > 0 && size > 4096 ==> r == -10 && after == m
            &&& given.len() > 0 && size <= 4096 && m.len() < 8192 + size ==> r == -11 && after == m
            &&& given.len() > 0 && size <= 4096 && m.len() >= 8192 + size && !in_bounds(
                m.len(),
                q.res_ptr as int,
                4,
            ) ==> r == -11
            &&& given.len() > 0 && size <= 4096 && m.len() >= 8192 + size && in_bounds(
                m.len(),
                q.res_ptr as int,
                4,
            ) ==> r == given.len()
        }),
{
    let given = filtered(addrs, q.family, denylist);
    places(given, given.len() as int);
    chain_ends(given, q.hints, 0);
}

/// A cached answer lives for its time in milliseconds: it is used until then and not from
/// then on. A time of zero is for ever. Without a living answer the name is looked up.
pub proof fn an_answer_lives_for_its_time(
    s: ResolverModel,
    m: Seq<u8>,
    a: [i64; 6],
    i: int,
    now: u64,
)
    requires
        s.wf(),
        0 <= i < s.cache.len(),
        query_of(m, a) matches Ok(q) && q.name == s.cache[i].0,
    ensures
        ({
            let then = s.cache[i].1.inserted as int;
            let ends = then + s.ttl_ms * 1_000_000;
            let q = query_of(m, a)->Ok_0;
            let (step, after) = resolve_after(s, m, a, now);
            &&& s.ttl_ms == 0 || now < ends ==> {
                let (r, told) = answered(m, q, s.cache[i].1.addrs, s.denylist);
                step == ResolveModel::Done(r) && after == told
            }
            &&& s.ttl_ms != 0 && now >= ends ==> step == (ResolveModel::Lookup {
                query: q,
                timeout_ms: s.timeout_ms,
            }) && after == m
        }),
{
    let c = s.cache;
    let name = c[i].0;
    assert(crate::sys::resolver::cached(c, name));
    let k = crate::sys::resolver::cache_index(c, name);
    assert(0 <= k < c.len() && c[k].0 == name);
    if k < i {
        assert(c[k].0 != c[i].0);
    }
    if i < k {
        assert(c[i].0 != c[k].0);
    }
}

/// A name that is not cached is looked up, under the state's time limit, and the memory
/// stays as it is.
pub proof fn an_unknown_name_is_looked_up(s: ResolverModel, m: Seq<u8>, a: [i64; 6], now: u64)
    requires
        query_of(m, a) is Ok,
        forall|i: int| 0 <= i < s.cache.len() ==> (#[trigger] s.cache[i]).0 != query_of(m, a)->Ok_0.name,
    ensures
        resolve_after(s, m, a, now) == (
            ResolveModel::Lookup { query: query_of(m, a)->Ok_0, timeout_ms: s.timeout_ms },
            m,
        ),
{
}

} // verus!
