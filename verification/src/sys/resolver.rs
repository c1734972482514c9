//! Name resolution: `getaddrinfo` as one call.
//!
//! The host looks names up. Here stand the checks on the request, the cache, the
//! denylist, and the layout of the result in guest memory.

use vstd::prelude::*;
use vstd::slice::slice_to_vec;
use crate::bytes::int32;
use crate::bytes::le;
use crate::bytes::le_len;
use crate::bytes::le_round_trip;
use crate::bytes::pow256_values;
use crate::bytes::push_bytes;
use crate::bytes::push_le;
use crate::bytes::push_zeros;
use crate::bytes::read_le;
use crate::bytes::to_int32;
use crate::bytes::to_word32;
use crate::bytes::word32;
use crate::bytes::zeros;
use crate::ip::ip_of;
use crate::ip::ips;
use crate::ip::parse_ip;
use crate::ip::parse_unsigned;
use crate::ip::pieces;
use crate::ip::split;
use crate::ip::texts;
use crate::ip::trim;
use crate::ip::trimmed;
use crate::ip::unsigned;
use crate::ip::IpAddr;
use crate::ip::IpModel;
use crate::mem::guest_slice;
use crate::mem::guest_str;
use crate::mem::guest_write;
use crate::mem::in_bounds;
use crate::mem::text_at;
use crate::mem::window;
use crate::mem::word_at;
use crate::mem::written;
use crate::path::copy_bytes;
use crate::path::same_bytes;

verus! {

broadcast use le_len;

pub const NR_RESOLVE: u32 = 400;

/// The size of a `struct addrinfo`.
pub const ADDRINFO_SIZE: usize = 32;

/// The size of a `struct sockaddr_in`.
pub const SOCKADDR_IN_SIZE: usize = 16;

/// The size of a `struct sockaddr_in6`.
pub const SOCKADDR_IN6_SIZE: usize = 28;

/// The most that a result may take in guest memory.
pub const MAX_RESOLVER_SCRATCH_BYTES: usize = 4096;

/// How many names the cache holds.
pub const MAX_CACHE_ENTRIES: usize = 1024;

/// Where in guest memory a result is laid out.
pub const RESOLVER_SCRATCH_BASE: usize = 8192;

/// How long a cached result is used, unless the environment says otherwise.
pub const DEFAULT_TTL_MS: u64 = 60_000;

/// How long a lookup may take, unless the environment says otherwise.
pub const DEFAULT_TIMEOUT_MS: u64 = 5_000;

pub const AI_NUMERICHOST: i32 = 0x0004;
pub const AI_NUMERICSERV: i32 = 0x0400;

/// The longest name of a host, and of a service.
pub const NODE_MAX: i64 = 256;
pub const SERVICE_MAX: i64 = 64;

pub const EAI_BADFLAGS: i64 = -1;
pub const EAI_NONAME: i64 = -2;
pub const EAI_AGAIN: i64 = -3;
pub const EAI_FAIL: i64 = -4;
pub const EAI_FAMILY: i64 = -6;
pub const EAI_SOCKTYPE: i64 = -7;
pub const EAI_SERVICE: i64 = -8;
pub const EAI_MEMORY: i64 = -10;
pub const EAI_SYSTEM: i64 = -11;
pub const EAI_OVERFLOW: i64 = -12;

/// A cached result, and when it came, in nanoseconds of a clock that never goes back.
pub struct CacheEntry {
    pub addrs: Vec<IpAddr>,
    pub inserted: u64,
}

pub struct CacheModel {
    pub addrs: Seq<IpModel>,
    pub inserted: u64,
}

impl View for CacheEntry {
    type V = CacheModel;

    open spec fn view(&self) -> CacheModel {
        CacheModel { addrs: ips(self.addrs@), inserted: self.inserted }
    }
}

/// How names are resolved.
pub struct ResolverConfig {
    /// Addresses that are never given out.
    pub denylist: Vec<IpAddr>,
    pub ttl_ms: u64,
    pub timeout_ms: u64,
}

pub struct ConfigModel {
    pub denylist: Seq<IpModel>,
    pub ttl_ms: u64,
    pub timeout_ms: u64,
}

impl View for ResolverConfig {
    type V = ConfigModel;

    open spec fn view(&self) -> ConfigModel {
        ConfigModel {
            denylist: ips(self.denylist@),
            ttl_ms: self.ttl_ms,
            timeout_ms: self.timeout_ms,
        }
    }
}

impl Default for ResolverConfig {
    fn default() -> (r: ResolverConfig)
        ensures
            r@ == (ConfigModel { denylist: Seq::empty(), ttl_ms: 0, timeout_ms: 0 }),
    {
        let r: ResolverConfig = ResolverConfig {
            denylist: Vec::new(),
            ttl_ms: 0,
            timeout_ms: 0,
        };
        assert(ips(r.denylist@) =~= Seq::empty());
        r
    }
}

/// The addresses that the parts `p` spell; a part that spells none is left out.
pub open spec fn listed_ips(p: Seq<Seq<char>>) -> Seq<IpModel>
    decreases p.len(),
{
    if p.len() == 0 {
        Seq::empty()
    } else {
        let rest = listed_ips(p.drop_last());
        match ip_of(trimmed(p.last())) {
            Some(a) => rest.push(a),
            None => rest,
        }
    }
}

/// The configuration after one variable of the environment was taken into account. A
/// number that cannot be read changes nothing.
pub open spec fn configured(c: ConfigModel, key: Seq<char>, value: Seq<char>) -> ConfigModel {
    if key == "EDGE_RESOLVER_DENY"@ {
        ConfigModel { denylist: c.denylist + listed_ips(pieces(value, ',')), ..c }
    } else if key == "EDGE_RESOLVER_CACHE_TTL_MS"@ {
        match unsigned(value, u64::MAX as nat) {
            Some(n) => ConfigModel { ttl_ms: n as u64, ..c },
            None => c,
        }
    } else if key == "EDGE_RESOLVER_TIMEOUT_MS"@ {
        match unsigned(value, u64::MAX as nat) {
            Some(n) => ConfigModel { timeout_ms: n as u64, ..c },
            None => c,
        }
    } else {
        c
    }
}

/// The configuration that the environment asks for: its variables in order, starting
/// from the defaults.
pub open spec fn config_of(env: Seq<(String, String)>) -> ConfigModel
    decreases env.len(),
{
    if env.len() == 0 {
        ConfigModel {
            denylist: Seq::empty(),
            ttl_ms: DEFAULT_TTL_MS,
            timeout_ms: DEFAULT_TIMEOUT_MS,
        }
    } else {
        configured(config_of(env.drop_last()), env.last().0@, env.last().1@)
    }
}

/// The characters of a string.
fn chars_of(s: &String) -> (r: Vec<char>)
    ensures
        r@ == s@,
{
    broadcast use vstd::string::axiom_spec_iter;

    let mut out: Vec<char> = Vec::new();
    for c in it: s.as_str().chars()
        invariant
            out@ == it.seq().take(it.index() as int),
    {
        out.push(c);
        assert(out@ =~= it.seq().take(it.index() + 1));
    }
    assert(out@ =~= s@);
    out
}

/// Append the addresses that the comma-separated text spells.
fn push_listed(list: &mut Vec<IpAddr>, text: &Vec<char>)
    ensures
        ips(final(list)@) == ips(old(list)@) + listed_ips(pieces(text@, ',')),
{
    let parts: Vec<Vec<char>> = split(text, ',');
    let n: usize = parts.len();
    let ghost t = texts(parts@);
    let mut i: usize = 0;
    assert(t.take(0) =~= Seq::empty());
    assert(ips(list@) =~= ips(old(list)@) + Seq::empty());
    while i < n
        invariant
            i <= n,
            n == parts@.len(),
            t == texts(parts@),
            ips(list@) == ips(old(list)@) + listed_ips(t.take(i as int)),
        decreases n - i,
    {
        assert(t.take(i + 1).drop_last() =~= t.take(i as int));
        assert(t.take(i + 1).last() == parts@[i as int]@);
        let token: Vec<char> = trim(&parts[i]);
        match parse_ip(&token) {
            Some(a) => {
                let ghost before = list@;
                list.push(a);
                assert(ips(list@) =~= ips(before).push(a@));
                assert(ips(before).push(a@) =~= ips(old(list)@) + listed_ips(
                    t.take(i as int),
                ).push(a@));
            },
            None => {},
        }
        i = i + 1;
    }
    assert(t.take(n as int) =~= t);
}

impl ResolverConfig {
    /// The configuration that the environment asks for.
    pub fn from_env(env: &[(String, String)]) -> (r: ResolverConfig)
        ensures
            r@ == config_of(env@),
    {
        let deny: String = "EDGE_RESOLVER_DENY".to_owned();
        let ttl: String = "EDGE_RESOLVER_CACHE_TTL_MS".to_owned();
        let timeout: String = "EDGE_RESOLVER_TIMEOUT_MS".to_owned();
        let mut c: ResolverConfig = ResolverConfig {
            denylist: Vec::new(),
            ttl_ms: DEFAULT_TTL_MS,
            timeout_ms: DEFAULT_TIMEOUT_MS,
        };
        let n: usize = env.len();
        let mut i: usize = 0;
        assert(env@.take(0) =~= Seq::empty());
        assert(ips(c.denylist@) =~= Seq::empty());
        while i < n
            invariant
                i <= n,
                n == env@.len(),
                deny@ == "EDGE_RESOLVER_DENY"@,
                ttl@ == "EDGE_RESOLVER_CACHE_TTL_MS"@,
                timeout@ == "EDGE_RESOLVER_TIMEOUT_MS"@,
                c@ == config_of(env@.take(i as int)),
            decreases n - i,
        {
            assert(env@.take(i + 1).drop_last() =~= env@.take(i as int));
            let entry: &(String, String) = &env[i];
            assert(env@.take(i + 1).last() == *entry);
            if entry.0 == deny {
                let value: Vec<char> = chars_of(&entry.1);
                push_listed(&mut c.denylist, &value);
            } else if entry.0 == ttl {
                let value: Vec<char> = chars_of(&entry.1);
                match parse_unsigned(&value, u64::MAX) {
                    Some(ms) => {
                        c.ttl_ms = ms;
                    },
                    None => {},
                }
            } else if entry.0 == timeout {
                let value: Vec<char> = chars_of(&entry.1);
                match parse_unsigned(&value, u64::MAX) {
                    Some(ms) => {
                        c.timeout_ms = ms;
                    },
                    None => {},
                }
            }
            i = i + 1;
        }
        assert(env@.take(n as int) =~= env@);
        c
    }
}

/// The size of the socket address for `ip`.
pub open spec fn sock_size(ip: IpModel) -> nat {
    if ip is V4 {
        SOCKADDR_IN_SIZE as nat
    } else {
        SOCKADDR_IN6_SIZE as nat
    }
}

/// The size of a node and its socket address.
pub open spec fn node_size(ip: IpModel) -> nat {
    ADDRINFO_SIZE as nat + sock_size(ip)
}

/// The number of the address family.
pub open spec fn family_of(ip: IpModel) -> nat {
    if ip is V4 {
        2
    } else {
        10
    }
}

/// A port, the high byte first.
pub open spec fn port_image(port: u16) -> Seq<u8> {
    seq![(port / 256) as u8, (port % 256) as u8]
}

/// The socket address for `ip`.
pub open spec fn sock_image(ip: IpModel, port: u16) -> Seq<u8> {
    match ip {
        IpModel::V4(b) => le(2, 2) + port_image(port) + b + zeros(8),
        IpModel::V6(b) => le(10, 2) + port_image(port) + zeros(4) + b + zeros(4),
    }
}

/// What a request asks of every node.
#[derive(Clone, Copy, PartialEq, Eq, Structural, Debug)]
pub struct NodeHints {
    pub flags: i32,
    pub socktype: i32,
    pub protocol: i32,
    pub port: u16,
}

/// The node for `ip` at offset `off`, and its socket address. The node holds the
/// offset of the socket address and that of the next node, or zero.
pub open spec fn node_image(ip: IpModel, h: NodeHints, off: nat, next: nat) -> Seq<u8> {
    le(word32(h.flags), 4) + le(family_of(ip), 4) + le(word32(h.socktype), 4) + le(
        word32(h.protocol),
        4,
    ) + le(sock_size(ip), 4) + le(off + ADDRINFO_SIZE as nat, 4) + le(0, 4) + le(next, 4)
        + sock_image(ip, h.port)
}

/// The list of nodes for the addresses, from offset `off` on.
pub open spec fn chain_image(addrs: Seq<IpModel>, h: NodeHints, off: nat) -> Seq<u8>
    decreases addrs.len(),
{
    if addrs.len() == 0 {
        Seq::empty()
    } else {
        let end = off + node_size(addrs[0]);
        let next = if addrs.len() > 1 {
            end
        } else {
            0
        };
        node_image(addrs[0], h, off, next) + chain_image(addrs.drop_first(), h, end)
    }
}

/// Whether the bytes of the address are as many as its family has.
pub open spec fn proper_ip(ip: IpModel) -> bool {
    match ip {
        IpModel::V4(b) => b.len() == 4,
        IpModel::V6(b) => b.len() == 16,
    }
}

pub proof fn node_image_len(ip: IpModel, h: NodeHints, off: nat, next: nat)
    requires
        proper_ip(ip),
    ensures
        node_image(ip, h, off, next).len() == node_size(ip),
{
}

/// Between 48 bytes, for the short addresses, and 60 stand for each address.
pub proof fn chain_image_len(addrs: Seq<IpModel>, h: NodeHints, off: nat)
    requires
        forall|i: int| 0 <= i < addrs.len() ==> proper_ip(#[trigger] addrs[i]),
    ensures
        48 * addrs.len() <= chain_image(addrs, h, off).len() <= 60 * addrs.len(),
    decreases addrs.len(),
{
    if addrs.len() > 0 {
        let rest = addrs.drop_first();
        let end = off + node_size(addrs[0]);
        let next = if addrs.len() > 1 {
            end
        } else {
            0
        };
        assert(proper_ip(addrs[0]));
        assert forall|i: int| 0 <= i < rest.len() implies proper_ip(#[trigger] rest[i]) by {
            assert(rest[i] == addrs[i + 1]);
        }
        node_image_len(addrs[0], h, off, next);
        chain_image_len(rest, h, end);
    }
}

/// Every address has as many bytes as its family.
pub proof fn every_ip_is_proper(s: Seq<IpAddr>)
    ensures
        forall|i: int| 0 <= i < s.len() ==> proper_ip(#[trigger] ips(s)[i]),
{
    assert forall|i: int| 0 <= i < s.len() implies proper_ip(#[trigger] ips(s)[i]) by {
        match s[i] {
            IpAddr::V4(b) => {
                assert(b@.len() == 4);
            },
            IpAddr::V6(b) => {
                assert(b@.len() == 16);
            },
        }
    }
}

/// Append the node for `ip`.
fn push_node(out: &mut Vec<u8>, ip: &IpAddr, h: NodeHints, off: u64, next: u64)
    requires
        off <= u64::MAX - 32,
    ensures
        final(out)@ == old(out)@ + node_image(ip@, h, off as nat, next as nat),
{
    let ghost before = out@;
    push_le(out, to_word32(h.flags) as u64, 4);
    push_le(
        out,
        if ip.is_ipv4() {
            2
        } else {
            10
        },
        4,
    );
    push_le(out, to_word32(h.socktype) as u64, 4);
    push_le(out, to_word32(h.protocol) as u64, 4);
    push_le(
        out,
        if ip.is_ipv4() {
            16
        } else {
            28
        },
        4,
    );
    push_le(out, off + 32, 4);
    push_le(out, 0, 4);
    push_le(out, next, 4);
    let ghost head = out@;
    match ip {
        IpAddr::V4(b) => {
            push_le(out, 2, 2);
            out.push((h.port / 256) as u8);
            out.push((h.port % 256) as u8);
            push_bytes(out, b.as_slice());
            push_zeros(out, 8);
            assert(out@ =~= head + sock_image(ip@, h.port));
        },
        IpAddr::V6(b) => {
            push_le(out, 10, 2);
            out.push((h.port / 256) as u8);
            out.push((h.port % 256) as u8);
            push_zeros(out, 4);
            push_bytes(out, b.as_slice());
            push_zeros(out, 4);
            assert(out@ =~= head + sock_image(ip@, h.port));
        },
    }
    assert(out@ =~= before + node_image(ip@, h, off as nat, next as nat));
}

/// The list of nodes for the addresses, and the offset of the first.
pub fn marshal_addrinfo_into_vec(
    addrs: &[IpAddr],
    ai_flags: i32,
    ai_socktype: i32,
    ai_protocol: i32,
    port: u16,
) -> (r: (Vec<u8>, u32))
    requires
        chain_image(
            ips(addrs@),
            NodeHints { flags: ai_flags, socktype: ai_socktype, protocol: ai_protocol, port },
            0,
        ).len() <= usize::MAX,
    ensures
        r.0@ == chain_image(
            ips(addrs@),
            NodeHints { flags: ai_flags, socktype: ai_socktype, protocol: ai_protocol, port },
            0,
        ),
        r.1 == 0,
{
    let h: NodeHints = NodeHints {
        flags: ai_flags,
        socktype: ai_socktype,
        protocol: ai_protocol,
        port,
    };
    let n: usize = addrs.len();
    let ghost all = ips(addrs@);
    let mut out: Vec<u8> = Vec::new();
    let mut off: u64 = 0;
    let mut i: usize = 0;
    assert(all.skip(0) =~= all);
    assert(out@ + chain_image(all, h, 0) =~= chain_image(all, h, 0));
    proof {
        every_ip_is_proper(addrs@);
    }
    while i < n
        invariant
            i <= n,
            n == addrs@.len(),
            all == ips(addrs@),
            forall|k: int| 0 <= k < n ==> proper_ip(#[trigger] all[k]),
            chain_image(all, h, 0).len() <= usize::MAX,
            off == out@.len(),
            out@ + chain_image(all.skip(i as int), h, off as nat) == chain_image(all, h, 0),
        decreases n - i,
    {
        let ip: IpAddr = addrs[i];
        let ghost rest = all.skip(i as int);
        assert(rest[0] == ip@);
        assert(rest.drop_first() =~= all.skip(i + 1));
        let size: u64 = if ip.is_ipv4() {
            48
        } else {
            60
        };
        proof {
            let next = if rest.len() > 1 {
                off + size
            } else {
                0
            };
            assert(proper_ip(all[i as int]));
            node_image_len(ip@, h, off as nat, next as nat);
        }
        let next: u64 = if i + 1 < n {
            off + size
        } else {
            0
        };
        let ghost before = out@;
        push_node(&mut out, &ip, h, off, next);
        off = off + size;
        i = i + 1;
        assert(out@ + chain_image(all.skip(i as int), h, off as nat) =~= before + chain_image(
            rest,
            h,
            (off - size) as nat,
        ));
    }
    assert(all.skip(n as int) =~= Seq::empty());
    assert(out@ + Seq::<u8>::empty() =~= out@);
    (out, 0)
}

/// Whether an address of this family may be given out: zero asks for any family.
pub open spec fn allowed(ip: IpModel, family: i32, denylist: Seq<IpModel>) -> bool {
    &&& family == 2 ==> ip is V4
    &&& family == 10 ==> ip is V6
    &&& !denylist.contains(ip)
}

/// The addresses that may be given out, in order.
pub open spec fn filtered(addrs: Seq<IpModel>, family: i32, denylist: Seq<IpModel>) -> Seq<IpModel>
    decreases addrs.len(),
{
    if addrs.len() == 0 {
        Seq::empty()
    } else {
        let rest = filtered(addrs.drop_last(), family, denylist);
        if allowed(addrs.last(), family, denylist) {
            rest.push(addrs.last())
        } else {
            rest
        }
    }
}

/// Whether `ip` is in the list.
fn listed(list: &[IpAddr], ip: &IpAddr) -> (r: bool)
    ensures
        r == ips(list@).contains(ip@),
{
    let n: usize = list.len();
    let mut i: usize = 0;
    while i < n
        invariant
            i <= n,
            n == list@.len(),
            forall|j: int| 0 <= j < i ==> ips(list@)[j] != ip@,
        decreases n - i,
    {
        if list[i].same(ip) {
            assert(ips(list@)[i as int] == ip@);
            return true;
        }
        i = i + 1;
    }
    false
}

/// The addresses that may be given out.
pub fn filter_addrs(addrs: &[IpAddr], family: i32, denylist: &[IpAddr]) -> (r: Vec<IpAddr>)
    ensures
        ips(r@) == filtered(ips(addrs@), family, ips(denylist@)),
        r@.len() <= addrs@.len(),
{
    let n: usize = addrs.len();
    let ghost all = ips(addrs@);
    let mut out: Vec<IpAddr> = Vec::new();
    let mut i: usize = 0;
    assert(all.take(0) =~= Seq::empty());
    assert(ips(out@) =~= Seq::empty());
    while i < n
        invariant
            i <= n,
            n == addrs@.len(),
            all == ips(addrs@),
            out@.len() <= i,
            ips(out@) == filtered(all.take(i as int), family, ips(denylist@)),
        decreases n - i,
    {
        assert(all.take(i + 1).drop_last() =~= all.take(i as int));
        let ip: IpAddr = addrs[i];
        assert(all.take(i + 1).last() == ip@);
        let of_family: bool = if family == 2 {
            ip.is_ipv4()
        } else if family == 10 {
            ip.is_ipv6()
        } else {
            true
        };
        if of_family && !listed(denylist, &ip) {
            let ghost before = out@;
            out.push(ip);
            assert(ips(out@) =~= ips(before).push(ip@));
        }
        i = i + 1;
    }
    assert(all.take(n as int) =~= all);
    out
}

/// The names, their cached addresses, and how names are resolved.
pub struct ResolverState {
    /// The cached results, each name once, in the order in which they came.
    pub cache: Vec<(Vec<u8>, CacheEntry)>,
    pub denylist: Vec<IpAddr>,
    pub ttl_ms: u64,
    pub timeout_ms: u64,
}

#[verifier::ext_equal]
pub struct ResolverModel {
    pub cache: Seq<(Seq<u8>, CacheModel)>,
    pub denylist: Seq<IpModel>,
    pub ttl_ms: u64,
    pub timeout_ms: u64,
}

pub open spec fn cache_view(c: Seq<(Vec<u8>, CacheEntry)>) -> Seq<(Seq<u8>, CacheModel)> {
    c.map_values(|e: (Vec<u8>, CacheEntry)| (e.0@, e.1@))
}

impl View for ResolverState {
    type V = ResolverModel;

    open spec fn view(&self) -> ResolverModel {
        ResolverModel {
            cache: cache_view(self.cache@),
            denylist: ips(self.denylist@),
            ttl_ms: self.ttl_ms,
            timeout_ms: self.timeout_ms,
        }
    }
}

/// No name is cached twice.
pub open spec fn names_distinct(c: Seq<(Seq<u8>, CacheModel)>) -> bool {
    forall|i: int, j: int| 0 <= i < j < c.len() ==> (#[trigger] c[i]).0 != (#[trigger] c[j]).0
}

impl ResolverModel {
    pub open spec fn wf(self) -> bool {
        names_distinct(self.cache)
    }
}

/// The state before any name was resolved.
pub open spec fn fresh_resolver() -> ResolverModel {
    ResolverModel {
        cache: Seq::empty(),
        denylist: Seq::empty(),
        ttl_ms: DEFAULT_TTL_MS,
        timeout_ms: DEFAULT_TIMEOUT_MS,
    }
}

impl Default for ResolverState {
    fn default() -> (r: ResolverState)
        ensures
            r@ == fresh_resolver(),
            r@.wf(),
    {
        let r: ResolverState = ResolverState {
            cache: Vec::new(),
            denylist: Vec::new(),
            ttl_ms: DEFAULT_TTL_MS,
            timeout_ms: DEFAULT_TIMEOUT_MS,
        };
        assert(r@ =~= fresh_resolver());
        r
    }
}

/// The resolver once names are to be resolved in this way.
pub open spec fn reconfigured(s: ResolverModel, c: ConfigModel) -> ResolverModel {
    ResolverModel {
        cache: s.cache,
        denylist: c.denylist,
        ttl_ms: c.ttl_ms,
        timeout_ms: c.timeout_ms,
    }
}

impl ResolverState {
    /// Resolve names in this way from now on. What is cached stays.
    pub fn configure(&mut self, config: ResolverConfig)
        ensures
            final(self)@ == reconfigured(old(self)@, config@),
            old(self)@.wf() ==> final(self)@.wf(),
    {
        self.denylist = config.denylist;
        self.ttl_ms = config.ttl_ms;
        self.timeout_ms = config.timeout_ms;
    }
}

/// Whether a result for `name` is cached.
pub open spec fn cached(c: Seq<(Seq<u8>, CacheModel)>, name: Seq<u8>) -> bool {
    exists|i: int| 0 <= i < c.len() && (#[trigger] c[i]).0 == name
}

/// Where the result for `name` stands.
pub open spec fn cache_index(c: Seq<(Seq<u8>, CacheModel)>, name: Seq<u8>) -> int {
    choose|i: int| 0 <= i < c.len() && (#[trigger] c[i]).0 == name
}

proof fn cache_index_is(c: Seq<(Seq<u8>, CacheModel)>, name: Seq<u8>, i: int)
    requires
        names_distinct(c),
        0 <= i < c.len(),
        c[i].0 == name,
    ensures
        cached(c, name),
        cache_index(c, name) == i,
{
    let j = cache_index(c, name);
    assert(0 <= j < c.len() && c[j].0 == name);
    if j < i {
        assert(c[j].0 != c[i].0);
    }
    if i < j {
        assert(c[i].0 != c[j].0);
    }
}

/// Whether a result that came at `inserted` is still used at `now`. A time to live of
/// zero is for ever.
pub open spec fn fresh(inserted: u64, now: u64, ttl_ms: u64) -> bool {
    ttl_ms == 0 || now - inserted < ttl_ms * 1_000_000
}

/// The cached addresses of `name` that are still used at `now`.
pub open spec fn cache_hit(s: ResolverModel, name: Seq<u8>, now: u64) -> Option<Seq<IpModel>> {
    if cached(s.cache, name) && fresh(s.cache[cache_index(s.cache, name)].1.inserted, now, s.ttl_ms) {
        Some(s.cache[cache_index(s.cache, name)].1.addrs)
    } else {
        None
    }
}

fn find_cached(s: &ResolverState, name: &Vec<u8>) -> (r: Option<usize>)
    requires
        s@.wf(),
    ensures
        match r {
            Some(i) => i < s.cache@.len() && s@.cache[i as int].0 == name@ && cached(
                s@.cache,
                name@,
            ) && i == cache_index(s@.cache, name@),
            None => !cached(s@.cache, name@),
        },
{
    let n: usize = s.cache.len();
    let mut i: usize = 0;
    while i < n
        invariant
            i <= n,
            n == s.cache@.len(),
            s@.wf(),
            forall|j: int| 0 <= j < i ==> (#[trigger] s@.cache[j]).0 != name@,
        decreases n - i,
    {
        if same_bytes(&s.cache[i].0, name) {
            proof {
                cache_index_is(s@.cache, name@, i as int);
            }
            return Some(i);
        }
        assert(s@.cache[i as int].0 != name@);
        i = i + 1;
    }
    None
}

fn copy_ips(v: &Vec<IpAddr>) -> (r: Vec<IpAddr>)
    ensures
        r@ == v@,
{
    slice_to_vec(v.as_slice())
}

/// Whether a result that came at `inserted` is still used at `now`.
fn is_fresh(inserted: u64, now: u64, ttl_ms: u64) -> (r: bool)
    ensures
        r == fresh(inserted, now, ttl_ms),
{
    if ttl_ms == 0 {
        return true;
    }
    if now < inserted {
        return true;
    }
    ((now - inserted) as u128) < ttl_ms as u128 * 1_000_000
}

/// Whether the entry at `i` came no later than any other, and before those in front.
pub open spec fn oldest(c: Seq<(Seq<u8>, CacheModel)>, i: int) -> bool {
    &&& 0 <= i < c.len()
    &&& forall|j: int| 0 <= j < c.len() ==> c[i].1.inserted <= (#[trigger] c[j]).1.inserted
    &&& forall|j: int| 0 <= j < i ==> c[i].1.inserted < (#[trigger] c[j]).1.inserted
}

/// The cache with room for one more: without its oldest entry where it is full.
pub open spec fn evicted(c: Seq<(Seq<u8>, CacheModel)>) -> Seq<(Seq<u8>, CacheModel)> {
    if c.len() >= MAX_CACHE_ENTRIES {
        c.remove(choose|i: int| oldest(c, i))
    } else {
        c
    }
}

/// The cache with this result for `name`, in the place of an earlier one or at the end.
pub open spec fn cache_put(c: Seq<(Seq<u8>, CacheModel)>, name: Seq<u8>, e: CacheModel) -> Seq<
    (Seq<u8>, CacheModel),
> {
    if cached(c, name) {
        c.update(cache_index(c, name), (name, e))
    } else {
        c.push((name, e))
    }
}

/// The cache after a lookup of `name` gave these addresses at `now`.
pub open spec fn remembered(
    c: Seq<(Seq<u8>, CacheModel)>,
    name: Seq<u8>,
    addrs: Seq<IpModel>,
    now: u64,
) -> Seq<(Seq<u8>, CacheModel)> {
    cache_put(evicted(c), name, CacheModel { addrs, inserted: now })
}

proof fn removal_keeps_the_cache_proper(c: Seq<(Seq<u8>, CacheModel)>, i: int)
    requires
        names_distinct(c),
        0 <= i < c.len(),
    ensures
        names_distinct(c.remove(i)),
{
    let t = c.remove(i);
    assert forall|k: int, j: int| 0 <= k < j < t.len() implies (#[trigger] t[k]).0 != (
    #[trigger] t[j]).0 by {
        let k0 = if k < i { k } else { k + 1 };
        let j0 = if j < i { j } else { j + 1 };
        assert(t[k] == c[k0] && t[j] == c[j0]);
        assert(c[k0].0 != c[j0].0);
    }
}

/// Make room for one more name.
fn evict(s: &mut ResolverState)
    requires
        old(s)@.wf(),
    ensures
        final(s)@ == (ResolverModel { cache: evicted(old(s)@.cache), ..old(s)@ }),
        final(s)@.wf(),
{
    let n: usize = s.cache.len();
    if n < MAX_CACHE_ENTRIES {
        return;
    }
    let ghost c = s@.cache;
    let mut best: usize = 0;
    let mut i: usize = 1;
    while i < n
        invariant
            1 <= i <= n,
            best < i,
            n == s.cache@.len(),
            s@ == old(s)@,
            c == s@.cache,
            c.len() == n,
            forall|j: int| 0 <= j < i ==> c[best as int].1.inserted <= (#[trigger] c[j]).1.inserted,
            forall|j: int|
                0 <= j < best ==> c[best as int].1.inserted < (#[trigger] c[j]).1.inserted,
        decreases n - i,
    {
        assert(c[i as int].1.inserted == s.cache@[i as int].1.inserted);
        assert(c[best as int].1.inserted == s.cache@[best as int].1.inserted);
        if s.cache[i].1.inserted < s.cache[best].1.inserted {
            best = i;
        }
        i = i + 1;
    }
    proof {
        assert(oldest(c, best as int));
        let k = choose|k: int| oldest(c, k);
        assert(oldest(c, k));
        if k < best {
            assert(c[best as int].1.inserted < c[k].1.inserted);
        }
        if best < k {
            assert(c[k].1.inserted < c[best as int].1.inserted);
        }
        removal_keeps_the_cache_proper(c, best as int);
    }
    let _ = s.cache.remove(best);
    assert(s@.cache =~= c.remove(best as int));
}

/// Remember what a lookup of `name` gave.
fn remember(s: &mut ResolverState, name: &Vec<u8>, addrs: &Vec<IpAddr>, now: u64)
    requires
        old(s)@.wf(),
    ensures
        final(s)@ == (ResolverModel {
            cache: remembered(old(s)@.cache, name@, ips(addrs@), now),
            ..old(s)@
        }),
        final(s)@.wf(),
{
    evict(s);
    let e: CacheEntry = CacheEntry { addrs: copy_ips(addrs), inserted: now };
    let key: Vec<u8> = copy_bytes(name);
    let ghost c = s@.cache;
    let ghost model = (key@, e@);
    match find_cached(s, name) {
        Some(i) => {
            s.cache.set(i, (key, e));
            assert(s@.cache =~= c.update(i as int, model));
            proof {
                let t = s@.cache;
                assert forall|k: int, j: int| 0 <= k < j < t.len() implies (#[trigger] t[k]).0 != (
                #[trigger] t[j]).0 by {
                    assert(c[k].0 != c[j].0);
                }
            }
        },
        None => {
            s.cache.push((key, e));
            assert(s@.cache =~= c.push(model));
            proof {
                let t = s@.cache;
                assert forall|k: int, j: int| 0 <= k < j < t.len() implies (#[trigger] t[k]).0 != (
                #[trigger] t[j]).0 by {
                    if j == c.len() {
                        assert(c[k].0 != name@);
                    } else {
                        assert(c[k].0 != c[j].0);
                    }
                }
            }
        },
    }
}

/// A request for addresses.
pub struct Query {
    pub name: Vec<u8>,
    pub family: i32,
    pub hints: NodeHints,
    /// Where the offset of the first node is to go.
    pub res_ptr: u32,
}

pub struct QueryModel {
    pub name: Seq<u8>,
    pub family: i32,
    pub hints: NodeHints,
    pub res_ptr: u32,
}

impl View for Query {
    type V = QueryModel;

    open spec fn view(&self) -> QueryModel {
        QueryModel {
            name: self.name@,
            family: self.family,
            hints: self.hints,
            res_ptr: self.res_ptr,
        }
    }
}

/// What answering a request with these addresses returns and leaves in the memory.
pub open spec fn answered(
    m: Seq<u8>,
    q: QueryModel,
    addrs: Seq<IpModel>,
    denylist: Seq<IpModel>,
) -> (int, Seq<u8>) {
    let given = filtered(addrs, q.family, denylist);
    let image = chain_image(given, q.hints, 0);
    let laid = written(m, RESOLVER_SCRATCH_BASE as int, image);
    if given.len() == 0 {
        (EAI_NONAME as int, m)
    } else if image.len() > MAX_RESOLVER_SCRATCH_BYTES {
        (EAI_MEMORY as int, m)
    } else if !in_bounds(m.len(), RESOLVER_SCRATCH_BASE as int, image.len() as int) {
        (EAI_SYSTEM as int, m)
    } else if !in_bounds(m.len(), q.res_ptr as int, 4) {
        (EAI_SYSTEM as int, laid)
    } else {
        (given.len() as int, written(laid, q.res_ptr as int, le(0, 4)))
    }
}

/// Lay out those of the addresses that may be given out, and say where.
pub fn marshal_and_return(mem: &mut [u8], q: &Query, addrs: &[IpAddr], denylist: &[IpAddr]) -> (r:
    i64)
    ensures
        (r as int, final(mem)@) == answered(old(mem)@, q@, ips(addrs@), ips(denylist@)),
        final(mem)@.len() == old(mem)@.len(),
{
    let given: Vec<IpAddr> = filter_addrs(addrs, q.family, denylist);
    assert(ips(given@).len() == given@.len());
    if given.len() == 0 {
        return EAI_NONAME;
    }
    proof {
        every_ip_is_proper(given@);
        chain_image_len(ips(given@), q.hints, 0);
    }
    if given.len() > MAX_RESOLVER_SCRATCH_BYTES / (ADDRINFO_SIZE + SOCKADDR_IN_SIZE) {
        return EAI_MEMORY;
    }
    let (image, head): (Vec<u8>, u32) = marshal_addrinfo_into_vec(
        given.as_slice(),
        q.hints.flags,
        q.hints.socktype,
        q.hints.protocol,
        q.hints.port,
    );
    if image.len() > MAX_RESOLVER_SCRATCH_BYTES {
        return EAI_MEMORY;
    }
    match guest_write(mem, RESOLVER_SCRATCH_BASE as i64, image.as_slice()) {
        Ok(_) => {},
        Err(_) => {
            return EAI_SYSTEM;
        },
    }
    let mut slot: Vec<u8> = Vec::new();
    push_le(&mut slot, head as u64, 4);
    assert(slot@ =~= le(0, 4));
    match guest_write(mem, q.res_ptr as i64, slot.as_slice()) {
        Ok(_) => {},
        Err(_) => {
            return EAI_SYSTEM;
        },
    }
    given.len() as i64
}

/// The family, the flags, the type and the protocol that the `struct addrinfo` at
/// `ptr` asks for, or why it is refused.
pub open spec fn hints_at(m: Seq<u8>, ptr: int) -> Result<(i32, i32, i32, i32), i64> {
    let flags = int32(word_at(m, ptr, 4)) as i32;
    let family = int32(word_at(m, ptr + 4, 4)) as i32;
    let socktype = int32(word_at(m, ptr + 8, 4)) as i32;
    let protocol = int32(word_at(m, ptr + 12, 4)) as i32;
    if ptr == 0 {
        Ok((0, 0, 0, 0))
    } else if !in_bounds(m.len(), ptr, ADDRINFO_SIZE as int) {
        Err(EAI_SYSTEM)
    } else if flags & (AI_NUMERICHOST | AI_NUMERICSERV) != 0 {
        Err(EAI_BADFLAGS)
    } else if family != 0 && family != 2 && family != 10 {
        Err(EAI_FAMILY)
    } else if !(0 <= socktype <= 2) {
        Err(EAI_SOCKTYPE)
    } else {
        Ok((family, flags, socktype, protocol))
    }
}

fn read_hints(mem: &[u8], ptr: u32) -> (r: Result<(i32, i32, i32, i32), i64>)
    ensures
        r == hints_at(mem@, ptr as int),
{
    if ptr == 0 {
        return Ok((0, 0, 0, 0));
    }
    let b: Vec<u8> = match guest_slice(mem, ptr as i64, 32) {
        Ok(b) => b,
        Err(_) => {
            return Err(EAI_SYSTEM);
        },
    };
    proof {
        pow256_values();
        assert(b@.subrange(0, 4) =~= window(mem@, ptr as int, 4));
        assert(b@.subrange(4, 8) =~= window(mem@, ptr + 4, 4));
        assert(b@.subrange(8, 12) =~= window(mem@, ptr + 8, 4));
        assert(b@.subrange(12, 16) =~= window(mem@, ptr + 12, 4));
    }
    let flags: i32 = to_int32(read_le(b.as_slice(), 0, 4) as u32);
    let family: i32 = to_int32(read_le(b.as_slice(), 4, 4) as u32);
    let socktype: i32 = to_int32(read_le(b.as_slice(), 8, 4) as u32);
    let protocol: i32 = to_int32(read_le(b.as_slice(), 12, 4) as u32);
    if flags & (AI_NUMERICHOST | AI_NUMERICSERV) != 0 {
        return Err(EAI_BADFLAGS);
    }
    if family != 0 && family != 2 && family != 10 {
        return Err(EAI_FAMILY);
    }
    if socktype < 0 || socktype > 2 {
        return Err(EAI_SOCKTYPE);
    }
    Ok((family, flags, socktype, protocol))
}

/// The characters with the codes of these bytes.
pub open spec fn latin(s: Seq<u8>) -> Seq<char> {
    s.map_values(|b: u8| b as char)
}

/// The port that the text at `ptr` spells: zero where the address is zero.
pub open spec fn port_at(m: Seq<u8>, ptr: int) -> Result<u16, i64> {
    if ptr == 0 {
        Ok(0)
    } else {
        match text_at(m, ptr, SERVICE_MAX as int) {
            None => Err(EAI_SYSTEM),
            Some(s) => match unsigned(latin(s), u16::MAX as nat) {
                Some(p) => Ok(p as u16),
                None => Err(EAI_SERVICE),
            },
        }
    }
}

fn read_port(mem: &[u8], ptr: u32) -> (r: Result<u16, i64>)
    ensures
        r == port_at(mem@, ptr as int),
{
    if ptr == 0 {
        return Ok(0);
    }
    let s: Vec<u8> = match guest_str(mem, ptr as i64, SERVICE_MAX) {
        Ok(s) => s,
        Err(_) => {
            return Err(EAI_SYSTEM);
        },
    };
    let mut text: Vec<char> = Vec::new();
    let n: usize = s.len();
    let mut i: usize = 0;
    assert(text@ =~= latin(s@).take(0));
    while i < n
        invariant
            i <= n,
            n == s@.len(),
            text@ == latin(s@).take(i as int),
        decreases n - i,
    {
        text.push(s[i] as char);
        i = i + 1;
        assert(text@ =~= latin(s@).take(i as int));
    }
    assert(text@ =~= latin(s@));
    match parse_unsigned(&text, 0xffff) {
        Some(p) => Ok(p as u16),
        None => Err(EAI_SERVICE),
    }
}

/// The request that the arguments make, or why it is refused.
pub open spec fn query_of(m: Seq<u8>, a: [i64; 6]) -> Result<QueryModel, i64> {
    let node = a[0] as u32;
    let service = a[2] as u32;
    let name = if node != 0 {
        text_at(m, node as int, NODE_MAX as int)
    } else {
        Some(Seq::empty())
    };
    if node == 0 && service == 0 {
        Err(EAI_NONAME)
    } else if name is None {
        Err(EAI_SYSTEM)
    } else {
        match hints_at(m, (a[4] as u32) as int) {
            Err(e) => Err(e),
            Ok((family, flags, socktype, protocol)) => match port_at(m, service as int) {
                Err(e) => Err(e),
                Ok(port) => Ok(
                    QueryModel {
                        name: name->Some_0,
                        family,
                        hints: NodeHints {
                            flags,
                            socktype: if socktype == 0 {
                                1
                            } else {
                                socktype
                            },
                            protocol,
                            port,
                        },
                        res_ptr: a[5] as u32,
                    },
                ),
            },
        }
    }
}

fn read_query(mem: &[u8], a: [i64; 6]) -> (r: Result<Query, i64>)
    ensures
        match r {
            Ok(q) => query_of(mem@, a) == Ok::<QueryModel, i64>(q@),
            Err(e) => query_of(mem@, a) == Err::<QueryModel, i64>(e),
        },
{
    let node: u32 = a[0] as u32;
    let service: u32 = a[2] as u32;
    if node == 0 && service == 0 {
        return Err(EAI_NONAME);
    }
    let name: Vec<u8> = if node != 0 {
        match guest_str(mem, node as i64, NODE_MAX) {
            Ok(s) => s,
            Err(_) => {
                return Err(EAI_SYSTEM);
            },
        }
    } else {
        Vec::new()
    };
    assert(node == 0 ==> name@ =~= Seq::<u8>::empty());
    let (family, flags, socktype, protocol): (i32, i32, i32, i32) = match read_hints(
        mem,
        a[4] as u32,
    ) {
        Ok(h) => h,
        Err(e) => {
            return Err(e);
        },
    };
    let port: u16 = match read_port(mem, service) {
        Ok(p) => p,
        Err(e) => {
            return Err(e);
        },
    };
    let hints: NodeHints = NodeHints {
        flags,
        socktype: if socktype == 0 {
            1
        } else {
            socktype
        },
        protocol,
        port,
    };
    Ok(Query { name, family, hints, res_ptr: a[5] as u32 })
}

/// What is left to do of a `resolve`.
pub enum ResolveStep {
    Done(i64),
    /// Look the name up, for so many milliseconds at most; `resolve_done` finishes.
    Lookup { query: Query, timeout_ms: u64 },
}

pub enum ResolveModel {
    Done(int),
    Lookup { query: QueryModel, timeout_ms: u64 },
}

impl View for ResolveStep {
    type V = ResolveModel;

    open spec fn view(&self) -> ResolveModel {
        match self {
            ResolveStep::Done(r) => ResolveModel::Done(*r as int),
            ResolveStep::Lookup { query, timeout_ms } => ResolveModel::Lookup {
                query: query@,
                timeout_ms: *timeout_ms,
            },
        }
    }
}

/// What `resolve` does at `now`.
pub open spec fn resolve_after(s: ResolverModel, m: Seq<u8>, a: [i64; 6], now: u64) -> (
    ResolveModel,
    Seq<u8>,
) {
    match query_of(m, a) {
        Err(e) => (ResolveModel::Done(e as int), m),
        Ok(q) => match cache_hit(s, q.name, now) {
            Some(addrs) => {
                let (r, after) = answered(m, q, addrs, s.denylist);
                (ResolveModel::Done(r), after)
            },
            None => (ResolveModel::Lookup { query: q, timeout_ms: s.timeout_ms }, m),
        },
    }
}

/// `resolve(node, node_len, service, service_len, hints, res)` at the time `now`. The
/// lengths have no effect: both names end with a zero byte.
pub fn resolve(s: &ResolverState, mem: &mut [u8], a: [i64; 6], now: u64) -> (r: ResolveStep)
    requires
        s@.wf(),
    ensures
        (r@, final(mem)@) == resolve_after(s@, old(mem)@, a, now),
        final(mem)@.len() == old(mem)@.len(),
{
    let q: Query = match read_query(mem, a) {
        Ok(q) => q,
        Err(e) => {
            return ResolveStep::Done(e);
        },
    };
    match find_cached(s, &q.name) {
        Some(i) => {
            assert(s@.cache[i as int].1 == s.cache@[i as int].1@);
            if is_fresh(s.cache[i].1.inserted, now, s.ttl_ms) {
                let addrs: &Vec<IpAddr> = &s.cache[i].1.addrs;
                return ResolveStep::Done(
                    marshal_and_return(mem, &q, addrs.as_slice(), s.denylist.as_slice()),
                );
            }
        },
        None => {},
    }
    ResolveStep::Lookup { query: q, timeout_ms: s.timeout_ms }
}

/// What the host's lookup gave.
pub enum LookupReply {
    TimedOut,
    Failed,
    Found(Vec<IpAddr>),
}

pub enum ReplyModel {
    TimedOut,
    Failed,
    Found(Seq<IpModel>),
}

impl View for LookupReply {
    type V = ReplyModel;

    open spec fn view(&self) -> ReplyModel {
        match self {
            LookupReply::TimedOut => ReplyModel::TimedOut,
            LookupReply::Failed => ReplyModel::Failed,
            LookupReply::Found(v) => ReplyModel::Found(ips(v@)),
        }
    }
}

/// What a reply of the host comes to: a number, the resolver and the memory.
pub open spec fn resolve_done_after(
    s: ResolverModel,
    m: Seq<u8>,
    q: QueryModel,
    reply: ReplyModel,
    now: u64,
) -> (int, ResolverModel, Seq<u8>) {
    match reply {
        ReplyModel::TimedOut => (EAI_AGAIN as int, s, m),
        ReplyModel::Failed => (EAI_FAIL as int, s, m),
        ReplyModel::Found(v) => {
            let (r, after) = answered(m, q, v, s.denylist);
            (r, ResolverModel { cache: remembered(s.cache, q.name, v, now), ..s }, after)
        },
    }
}

/// Finish a `resolve` with what the lookup gave, at the time `now`.
pub fn resolve_done(s: &mut ResolverState, mem: &mut [u8], q: &Query, reply: LookupReply, now: u64) -> (r:
    i64)
    requires
        old(s)@.wf(),
    ensures
        (r as int, final(s)@, final(mem)@) == resolve_done_after(
            old(s)@,
            old(mem)@,
            q@,
            reply@,
            now,
        ),
        final(s)@.wf(),
        final(mem)@.len() == old(mem)@.len(),
{
    match reply {
        LookupReply::TimedOut => EAI_AGAIN,
        LookupReply::Failed => EAI_FAIL,
        LookupReply::Found(v) => {
            remember(s, &q.name, &v, now);
            marshal_and_return(mem, q, v.as_slice(), s.denylist.as_slice())
        },
    }
}

/// Only addresses that the lookup gave and that may be given out are given, and all of
/// those.
pub proof fn denied_addresses_are_never_given(
    addrs: Seq<IpModel>,
    family: i32,
    denylist: Seq<IpModel>,
    ip: IpModel,
)
    ensures
        filtered(addrs, family, denylist).contains(ip) == (addrs.contains(ip) && allowed(
            ip,
            family,
            denylist,
        )),
    decreases addrs.len(),
{
    let all = filtered(addrs, family, denylist);
    if addrs.len() > 0 {
        let head = addrs.drop_last();
        let rest = filtered(head, family, denylist);
        denied_addresses_are_never_given(head, family, denylist, ip);
        if all.contains(ip) {
            let i = choose|i: int| 0 <= i < all.len() && all[i] == ip;
            if i < rest.len() {
                assert(rest[i] == ip);
                let k = choose|k: int| 0 <= k < head.len() && head[k] == ip;
                assert(addrs[k] == ip);
            } else {
                assert(addrs[addrs.len() - 1] == ip);
            }
        }
        if addrs.contains(ip) && allowed(ip, family, denylist) {
            let k = choose|k: int| 0 <= k < addrs.len() && addrs[k] == ip;
            if k < head.len() {
                assert(head[k] == ip);
                let i = choose|i: int| 0 <= i < rest.len() && rest[i] == ip;
                assert(all[i] == ip);
            } else {
                assert(all[rest.len() as int] == ip);
            }
        }
    }
}

/// Where the node for the `i`-th address starts.
pub open spec fn node_offset(addrs: Seq<IpModel>, i: int) -> nat
    decreases i,
{
    if i <= 0 {
        0
    } else {
        node_offset(addrs, i - 1) + node_size(addrs[i - 1])
    }
}

pub proof fn node_offset_shifts(addrs: Seq<IpModel>, i: int)
    requires
        0 < i <= addrs.len(),
    ensures
        node_offset(addrs, i) == node_size(addrs[0]) + node_offset(addrs.drop_first(), i - 1),
    decreases i,
{
    if i > 1 {
        node_offset_shifts(addrs, i - 1);
        assert(addrs.drop_first()[i - 2] == addrs[i - 1]);
    } else {
        assert(node_offset(addrs, 0) == 0);
        assert(node_offset(addrs.drop_first(), 0) == 0);
    }
}

/// Where the node after the `i`-th starts, or zero after the last.
pub open spec fn next_offset(addrs: Seq<IpModel>, i: int) -> nat {
    if i + 1 < addrs.len() {
        node_offset(addrs, i + 1)
    } else {
        0
    }
}

pub proof fn node_stands(addrs: Seq<IpModel>, h: NodeHints, base: nat, i: int)
    requires
        0 <= i < addrs.len(),
        forall|k: int| 0 <= k < addrs.len() ==> proper_ip(#[trigger] addrs[k]),
    ensures
        ({
            let o = node_offset(addrs, i);
            let image = chain_image(addrs, h, base);
            let next = if i + 1 < addrs.len() {
                base + node_offset(addrs, i + 1)
            } else {
                0
            };
            &&& o + node_size(addrs[i]) <= image.len()
            &&& image.subrange(o as int, (o + node_size(addrs[i])) as int) == node_image(
                addrs[i],
                h,
                base + o,
                next,
            )
        }),
    decreases addrs.len(),
{
    let rest = addrs.drop_first();
    let image = chain_image(addrs, h, base);
    let end = base + node_size(addrs[0]);
    let first = node_image(
        addrs[0],
        h,
        base,
        if addrs.len() > 1 {
            end
        } else {
            0
        },
    );
    assert(proper_ip(addrs[0]));
    node_image_len(
        addrs[0],
        h,
        base,
        if addrs.len() > 1 {
            end
        } else {
            0
        },
    );
    assert(node_offset(addrs, 0) == 0);
    assert(node_offset(addrs, 1) == node_size(addrs[0]));
    if i == 0 {
        assert(image.subrange(0, node_size(addrs[0]) as int) =~= first);
    } else {
        assert forall|k: int| 0 <= k < rest.len() implies proper_ip(#[trigger] rest[k]) by {
            assert(rest[k] == addrs[k + 1]);
        }
        node_stands(rest, h, end, i - 1);
        node_offset_shifts(addrs, i);
        if i + 1 < addrs.len() {
            node_offset_shifts(addrs, i + 1);
        }
        let o = node_offset(addrs, i);
        let p = node_offset(rest, i - 1);
        let tail = chain_image(rest, h, end);
        assert(rest[i - 1] == addrs[i]);
        assert(image.subrange(o as int, (o + node_size(addrs[i])) as int) =~= tail.subrange(
            p as int,
            (p + node_size(addrs[i])) as int,
        ));
    }
}

/// The nodes of a result form a list in the order of the addresses: each holds the
/// family, the offset of its socket address and that of the next node, and the last
/// holds zero.
pub proof fn nodes_form_a_list(addrs: Seq<IpModel>, h: NodeHints, i: int)
    requires
        0 <= i < addrs.len(),
        forall|k: int| 0 <= k < addrs.len() ==> proper_ip(#[trigger] addrs[k]),
        chain_image(addrs, h, 0).len() <= u32::MAX,
    ensures
        ({
            let o = node_offset(addrs, i) as int;
            let image = chain_image(addrs, h, 0);
            let size = sock_size(addrs[i]) as int;
            &&& word_at(image, o + 4, 4) == family_of(addrs[i])
            &&& word_at(image, o + 16, 4) == size
            &&& word_at(image, o + 20, 4) == o + 32
            &&& window(image, o + 32, size) == sock_image(addrs[i], h.port)
            &&& word_at(image, o + 28, 4) == next_offset(addrs, i)
        }),
{
    let o = node_offset(addrs, i) as int;
    let image = chain_image(addrs, h, 0);
    let size = sock_size(addrs[i]);
    let next = next_offset(addrs, i);
    node_stands(addrs, h, 0, i);
    if i + 1 < addrs.len() {
        node_stands(addrs, h, 0, i + 1);
    }
    assert(proper_ip(addrs[i]));
    let node = node_image(addrs[i], h, o as nat, next);
    node_image_len(addrs[i], h, o as nat, next);
    pow256_values();
    le_round_trip(family_of(addrs[i]), 4);
    le_round_trip(size, 4);
    le_round_trip((o + 32) as nat, 4);
    le_round_trip(next, 4);
    assert(image.subrange(o, o + node_size(addrs[i])) == node);
    assert(window(image, o + 4, 4) =~= node.subrange(4, 8));
    assert(node.subrange(4, 8) =~= le(family_of(addrs[i]), 4));
    assert(window(image, o + 16, 4) =~= node.subrange(16, 20));
    assert(node.subrange(16, 20) =~= le(size, 4));
    assert(window(image, o + 20, 4) =~= node.subrange(20, 24));
    assert(node.subrange(20, 24) =~= le((o + 32) as nat, 4));
    assert(window(image, o + 28, 4) =~= node.subrange(28, 32));
    assert(node.subrange(28, 32) =~= le(next, 4));
    assert(window(image, o + 32, size as int) =~= node.subrange(32, 32 + size as int));
    assert(node.subrange(32, 32 + size as int) =~= sock_image(addrs[i], h.port));
}

/// Whether the cached result for `name` is `e`.
pub open spec fn holds(c: Seq<(Seq<u8>, CacheModel)>, name: Seq<u8>, e: CacheModel) -> bool {
    cached(c, name) && c[cache_index(c, name)].1 == e
}

proof fn put_is_held(c: Seq<(Seq<u8>, CacheModel)>, name: Seq<u8>, e: CacheModel)
    requires
        names_distinct(c),
    ensures
        names_distinct(cache_put(c, name, e)),
        holds(cache_put(c, name, e), name, e),
{
    let t = cache_put(c, name, e);
    if cached(c, name) {
        let i = cache_index(c, name);
        assert(t[i] == (name, e));
        assert forall|k: int, j: int| 0 <= k < j < t.len() implies (#[trigger] t[k]).0 != (
        #[trigger] t[j]).0 by {
            assert(c[k].0 != c[j].0);
        }
        cache_index_is(t, name, i);
    } else {
        assert(t[c.len() as int] == (name, e));
        assert forall|k: int, j: int| 0 <= k < j < t.len() implies (#[trigger] t[k]).0 != (
        #[trigger] t[j]).0 by {
            if j == c.len() {
                assert(c[k].0 != name);
            } else {
                assert(c[k].0 != c[j].0);
            }
        }
        cache_index_is(t, name, c.len() as int);
    }
}

/// A name that was looked up is cached, and it is answered from the cache for as long as
/// its result lives, with the addresses that the lookup gave.
pub proof fn looked_up_names_are_remembered(
    s: ResolverModel,
    name: Seq<u8>,
    addrs: Seq<IpModel>,
    then: u64,
)
    requires
        s.wf(),
    ensures
        ({
            let t = ResolverModel { cache: remembered(s.cache, name, addrs, then), ..s };
            &&& t.wf()
            &&& holds(t.cache, name, CacheModel { addrs, inserted: then })
            &&& forall|now: u64|
                fresh(then, now, s.ttl_ms) ==> #[trigger] cache_hit(t, name, now) == Some(addrs)
        }),
{
    if s.cache.len() >= MAX_CACHE_ENTRIES {
        an_entry_is_oldest(s.cache, s.cache.len() as int);
        removal_keeps_the_cache_proper(s.cache, choose|i: int| oldest(s.cache, i));
    }
    put_is_held(evicted(s.cache), name, CacheModel { addrs, inserted: then });
}

/// A lookup of another name leaves a cached result as it is, unless the cache is full and
/// this result is its oldest.
pub proof fn other_lookups_leave_a_result(
    c: Seq<(Seq<u8>, CacheModel)>,
    name: Seq<u8>,
    e: CacheModel,
    other: Seq<u8>,
    addrs: Seq<IpModel>,
    now: u64,
)
    requires
        names_distinct(c),
        holds(c, name, e),
        other != name,
        c.len() < MAX_CACHE_ENTRIES || !oldest(c, cache_index(c, name)),
    ensures
        names_distinct(remembered(c, other, addrs, now)),
        holds(remembered(c, other, addrs, now), name, e),
{
    let i = cache_index(c, name);
    let room = evicted(c);
    let at = if c.len() >= MAX_CACHE_ENTRIES {
        an_entry_is_oldest(c, c.len() as int);
        let k = choose|k: int| oldest(c, k);
        removal_keeps_the_cache_proper(c, k);
        if k < i {
            i - 1
        } else {
            i
        }
    } else {
        i
    };
    assert(room[at] == c[i]);
    let new = CacheModel { addrs, inserted: now };
    put_is_held(room, other, new);
    let t = remembered(c, other, addrs, now);
    assert(t[at] == c[i]);
    cache_index_is(t, name, at);
}

/// Whether a write of four bytes at `ptr` leaves the first `len` bytes of the scratch
/// area alone.
pub open spec fn off_scratch(ptr: u32, len: nat) -> bool {
    ptr + 4 <= RESOLVER_SCRATCH_BASE || RESOLVER_SCRATCH_BASE + len <= ptr
}

/// Where a request for a name was answered with so many addresses, and the addresses
/// are cached and live, a later request for that name with the same service, the same
/// hints and the same denylist needs no lookup. It gives as many addresses, lays the
/// same nodes out in the scratch area and writes the same offset of the first node.
///
/// The memory may have changed since, but it has not shrunk; `first` is the earlier
/// request and `old_mem` the memory it was answered in.
pub proof fn resolving_again_needs_no_lookup(
    first: QueryModel,
    old_mem: Seq<u8>,
    addrs: Seq<IpModel>,
    then: u64,
    s: ResolverModel,
    m: Seq<u8>,
    a: [i64; 6],
    now: u64,
)
    requires
        s.wf(),
        holds(s.cache, first.name, CacheModel { addrs, inserted: then }),
        fresh(then, now, s.ttl_ms),
        answered(old_mem, first, addrs, s.denylist).0 >= 0,
        query_of(m, a) matches Ok(q) && q.name == first.name && q.family == first.family
            && q.hints == first.hints && in_bounds(m.len(), q.res_ptr as int, 4),
        old_mem.len() <= m.len(),
    ensures
        ({
            let q = query_of(m, a)->Ok_0;
            let given = filtered(addrs, first.family, s.denylist);
            let image = chain_image(given, first.hints, 0);
            let base = RESOLVER_SCRATCH_BASE as int;
            let (count, before) = answered(old_mem, first, addrs, s.denylist);
            let (step, after) = resolve_after(s, m, a, now);
            &&& step == ResolveModel::Done(count)
            &&& count == given.len()
            &&& before == written(written(old_mem, base, image), first.res_ptr as int, le(0, 4))
            &&& after == written(written(m, base, image), q.res_ptr as int, le(0, 4))
            &&& window(after, q.res_ptr as int, 4) == window(before, first.res_ptr as int, 4)
            &&& q.res_ptr == first.res_ptr || (off_scratch(q.res_ptr, image.len())
                && off_scratch(first.res_ptr, image.len())) ==> window(
                after,
                base,
                image.len() as int,
            ) == window(before, base, image.len() as int)
        }),
{
    let q = query_of(m, a)->Ok_0;
    let given = filtered(addrs, first.family, s.denylist);
    let image = chain_image(given, first.hints, 0);
    let base = RESOLVER_SCRATCH_BASE as int;
    let before = answered(old_mem, first, addrs, s.denylist).1;
    let after = resolve_after(s, m, a, now).1;
    assert(le(0, 4).len() == 4);
    assert(window(after, q.res_ptr as int, 4) =~= le(0, 4));
    assert(window(before, first.res_ptr as int, 4) =~= le(0, 4));
    if q.res_ptr == first.res_ptr || (off_scratch(q.res_ptr, image.len()) && off_scratch(
        first.res_ptr,
        image.len(),
    )) {
        assert(window(after, base, image.len() as int) =~= window(
            before,
            base,
            image.len() as int,
        ));
    }
}

proof fn an_entry_is_oldest(c: Seq<(Seq<u8>, CacheModel)>, n: int)
    requires
        0 < n <= c.len(),
    ensures
        exists|i: int| oldest(c.take(n), i),
        n == c.len() ==> exists|i: int| oldest(c, i),
    decreases n,
{
    let s = c.take(n);
    if n == 1 {
        assert(oldest(s, 0));
    } else {
        an_entry_is_oldest(c, n - 1);
        let before = c.take(n - 1);
        let i = choose|i: int| oldest(before, i);
        assert(forall|j: int| 0 <= j < n - 1 ==> before[j] == #[trigger] s[j]);
        if s[n - 1].1.inserted < s[i].1.inserted {
            assert forall|j: int| 0 <= j < n - 1 implies s[n - 1].1.inserted < (
            #[trigger] s[j]).1.inserted by {
                assert(before[i].1.inserted <= before[j].1.inserted);
            }
            assert(oldest(s, n - 1));
        } else {
            assert forall|j: int| 0 <= j < n implies s[i].1.inserted <= (
            #[trigger] s[j]).1.inserted by {
                if j < n - 1 {
                    assert(before[i].1.inserted <= before[j].1.inserted);
                }
            }
            assert forall|j: int| 0 <= j < i implies s[i].1.inserted < (
            #[trigger] s[j]).1.inserted by {
                assert(before[i].1.inserted < before[j].1.inserted);
            }
            assert(oldest(s, i));
        }
    }
    if n == c.len() {
        assert(s =~= c);
    }
}

/// The cache never outgrows its bound.
pub proof fn cache_is_bounded(
    c: Seq<(Seq<u8>, CacheModel)>,
    name: Seq<u8>,
    addrs: Seq<IpModel>,
    now: u64,
)
    requires
        c.len() <= MAX_CACHE_ENTRIES,
    ensures
        remembered(c, name, addrs, now).len() <= MAX_CACHE_ENTRIES,
{
    if c.len() >= MAX_CACHE_ENTRIES {
        an_entry_is_oldest(c, c.len() as int);
    }
}

} // verus!
