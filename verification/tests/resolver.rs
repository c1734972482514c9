//! Name resolution.

use edge_libos::ip::IpAddr;
use edge_libos::sys::resolver::{
    filter_addrs, marshal_addrinfo_into_vec, resolve, resolve_done, LookupReply, ResolveStep, ResolverConfig,
    ResolverState, ADDRINFO_SIZE, DEFAULT_TIMEOUT_MS, DEFAULT_TTL_MS, EAI_MEMORY, MAX_CACHE_ENTRIES,
    RESOLVER_SCRATCH_BASE, SOCKADDR_IN_SIZE,
};

const LOCALHOST4: IpAddr = IpAddr::V4([127, 0, 0, 1]);
const LOCALHOST6: IpAddr = IpAddr::V6([0, 0, 0, 0, 0, 0, 0, 0, 0, 0, 0, 0, 0, 0, 0, 1]);

#[test]
fn marshal_single_v4_layout() {
    let addrs = vec![IpAddr::V4([127, 0, 0, 1])];
    let (bytes, head_off) = marshal_addrinfo_into_vec(&addrs, 0, 1, 0, 80);
    assert_eq!(bytes.len(), ADDRINFO_SIZE as usize + SOCKADDR_IN_SIZE as usize);
    assert_eq!(head_off, 0);

    assert_eq!(&bytes[0..4], &[0, 0, 0, 0]);
    assert_eq!(&bytes[4..8], &[2, 0, 0, 0]);
    assert_eq!(&bytes[8..12], &[1, 0, 0, 0]);
    assert_eq!(&bytes[12..16], &[0, 0, 0, 0]);
    assert_eq!(&bytes[16..20], &[16, 0, 0, 0]);
    assert_eq!(&bytes[20..24], &[32, 0, 0, 0]);
    assert_eq!(&bytes[24..28], &[0, 0, 0, 0]);
    assert_eq!(&bytes[28..32], &[0, 0, 0, 0]);

    assert_eq!(&bytes[32..34], &[2, 0]);
    assert_eq!(&bytes[34..36], &[0, 80]);
    assert_eq!(&bytes[36..40], &[127, 0, 0, 1]);
    assert_eq!(&bytes[40..48], &[0; 8]);
}

#[test]
fn marshal_single_v6_sin6_addr_is_network_order() {
    let addrs = vec![IpAddr::V6([0x20, 0x01, 0x0d, 0xb8, 0, 0, 0, 0, 0, 0, 0, 0, 0, 0, 0, 1])];
    let (bytes, _head) = marshal_addrinfo_into_vec(&addrs, 0, 1, 0, 443);
    assert_eq!(&bytes[4..8], &[10, 0, 0, 0]);
    assert_eq!(&bytes[16..20], &[28, 0, 0, 0]);
    assert_eq!(&bytes[20..24], &[32, 0, 0, 0]);
    assert_eq!(&bytes[32..34], &[10, 0]);
    assert_eq!(&bytes[34..36], &[1, 187]);
    assert_eq!(&bytes[36..40], &[0, 0, 0, 0]);
    assert_eq!(&bytes[40..56], &[0x20, 0x01, 0x0d, 0xb8, 0, 0, 0, 0, 0, 0, 0, 0, 0, 0, 0, 1]);
    assert_eq!(&bytes[56..60], &[0, 0, 0, 0]);
}

#[test]
fn marshal_port_8080_is_be() {
    let addrs = vec![IpAddr::V4([0, 0, 0, 0])];
    let (bytes, _) = marshal_addrinfo_into_vec(&addrs, 0, 1, 0, 8080);
    assert_eq!(&bytes[34..36], &[0x1F, 0x90]);
}

#[test]
fn marshal_three_addrs_chain_ai_next_correctly() {
    let addrs = vec![IpAddr::V4([1, 2, 3, 4]), IpAddr::V4([5, 6, 7, 8]), LOCALHOST6];
    let (bytes, head_off) = marshal_addrinfo_into_vec(&addrs, 0, 1, 0, 0);
    assert_eq!(head_off, 0);
    assert_eq!(&bytes[28..32], &[48, 0, 0, 0]);
    assert_eq!(&bytes[48 + 28..48 + 32], &[96, 0, 0, 0]);
    assert_eq!(&bytes[96 + 28..96 + 32], &[0, 0, 0, 0]);
    assert_eq!(bytes.len(), 156);
}

#[test]
fn marshal_empty_addrs_returns_empty_bytes() {
    let (bytes, head) = marshal_addrinfo_into_vec(&[], 0, 1, 0, 0);
    assert!(bytes.is_empty());
    assert_eq!(head, 0);
}

#[test]
fn filter_drops_denied_keeps_others() {
    let addrs = vec![IpAddr::V4([10, 0, 0, 1]), IpAddr::V4([127, 0, 0, 1])];
    let denylist = vec![IpAddr::V4([10, 0, 0, 1])];
    let out = filter_addrs(&addrs, 0, &denylist);
    assert_eq!(out, vec![IpAddr::V4([127, 0, 0, 1])]);
}

#[test]
fn filter_drops_all_returns_empty() {
    let addrs = vec![IpAddr::V4([10, 0, 0, 1])];
    let denylist = vec![IpAddr::V4([10, 0, 0, 1])];
    let out = filter_addrs(&addrs, 0, &denylist);
    assert!(out.is_empty());
}

#[test]
fn filter_family_v4_only() {
    let out = filter_addrs(&[LOCALHOST4, LOCALHOST6], 2, &[]);
    assert_eq!(out, vec![LOCALHOST4]);
}

#[test]
fn filter_family_v6_only() {
    let out = filter_addrs(&[LOCALHOST4, LOCALHOST6], 10, &[]);
    assert_eq!(out, vec![LOCALHOST6]);
}

#[test]
fn filter_family_unspec_keeps_all() {
    let out = filter_addrs(&[LOCALHOST4, LOCALHOST6], 0, &[]);
    assert_eq!(out.len(), 2);
}

#[test]
fn from_env_defaults_when_empty() {
    let cfg = ResolverConfig::from_env(&[]);
    assert!(cfg.denylist.is_empty());
    assert_eq!(cfg.ttl_ms, DEFAULT_TTL_MS);
    assert_eq!(cfg.timeout_ms, DEFAULT_TIMEOUT_MS);
}

#[test]
fn from_env_parses_denylist() {
    let env = vec![("EDGE_RESOLVER_DENY".to_string(), "127.0.0.1, ::1, 10.0.0.5".to_string())];
    let cfg = ResolverConfig::from_env(&env);
    assert_eq!(cfg.denylist.len(), 3);
    assert!(cfg.denylist.contains(&IpAddr::V4([127, 0, 0, 1])));
    assert!(cfg.denylist.contains(&LOCALHOST6));
}

#[test]
fn from_env_ignores_malformed_ip() {
    let env = vec![(
        "EDGE_RESOLVER_DENY".to_string(),
        "not-an-ip, 127.0.0.1, also-bad".to_string(),
    )];
    let cfg = ResolverConfig::from_env(&env);
    assert_eq!(cfg.denylist.len(), 1);
    assert!(cfg.denylist.contains(&IpAddr::V4([127, 0, 0, 1])));
}

#[test]
fn from_env_parses_ttl_and_timeout() {
    let env = vec![
        ("EDGE_RESOLVER_CACHE_TTL_MS".to_string(), "30000".to_string()),
        ("EDGE_RESOLVER_TIMEOUT_MS".to_string(), "2000".to_string()),
    ];
    let cfg = ResolverConfig::from_env(&env);
    assert_eq!(cfg.ttl_ms, 30_000);
    assert_eq!(cfg.timeout_ms, 2_000);
}

/// A resolver that refuses `denylist` and waits for `timeout_ms`.
fn state(denylist: Vec<IpAddr>, timeout_ms: u64) -> ResolverState {
    let mut s = ResolverState::default();
    s.configure(ResolverConfig { denylist, ttl_ms: 0, timeout_ms });
    s
}

fn named(name: &str) -> Vec<u8> {
    let mut mem = vec![0u8; 65536];
    mem[120..120 + name.len()].copy_from_slice(name.as_bytes());
    mem
}

/// Resolves the name at 120 against a stub that knows `addrs` and takes `slow_ms`.
fn call(s: &mut ResolverState, mem: &mut [u8], hints: i64, addrs: &[IpAddr], slow_ms: u64) -> i64 {
    match resolve(s, mem, [120, 0, 0, 0, hints, 128], 0) {
        ResolveStep::Done(r) => r,
        ResolveStep::Lookup { query, timeout_ms } => {
            let reply = if slow_ms > timeout_ms {
                LookupReply::TimedOut
            } else {
                LookupReply::Found(addrs.to_vec())
            };
            resolve_done(s, mem, &query, reply, 0)
        }
    }
}

#[test]
fn resolve_loopback_v4_returns_127_0_0_1() {
    let mut s = state(vec![], 5_000);
    let mut mem = named("localhost");
    let r = call(&mut s, &mut mem, 0, &[LOCALHOST4], 0);
    assert!(r >= 0, "expected >= 0, got {r}");
    let head_off = u32::from_le_bytes(mem[128..132].try_into().unwrap());
    let at = (4096 + 4096 + head_off + 4) as usize;
    let ai_family = i32::from_le_bytes(mem[at..at + 4].try_into().unwrap());
    assert_eq!(ai_family, 2, "first node should be AF_INET (2), got {ai_family}");
}

#[test]
fn resolve_eai_noname_on_bad_name() {
    let mut s = state(vec![], 5_000);
    let mut mem = named("this-host-does-not-exist.invalid");
    let r = call(&mut s, &mut mem, 0, &[], 0);
    assert_eq!(r, -2, "expected -EAI_NONAME (-2), got {r}");
}

#[test]
fn resolve_denylist_blocks_resolved_ip() {
    let blocked = IpAddr::V4([10, 0, 0, 1]);
    let mut s = state(vec![blocked], 5_000);
    let mut mem = named("blocked.example.com");
    let r = call(&mut s, &mut mem, 0, &[blocked], 0);
    assert_eq!(r, -2, "expected -EAI_NONAME when denylist blocks all IPs, got {r}");
}

#[test]
fn resolve_cache_hit_avoids_second_lookup() {
    let mut s = state(vec![], 5_000);
    let mut mem = named("cached.example.com");
    let r1 = call(&mut s, &mut mem, 0, &[LOCALHOST4], 0);
    let r2 = call(&mut s, &mut mem, 0, &[LOCALHOST4], 0);
    assert!(r1 >= 0, "first call should succeed, got {r1}");
    assert!(r2 >= 0, "second call should succeed via cache, got {r2}");
    let mut other = named("cached.example.com");
    match resolve(&s, &mut other, [120, 0, 0, 0, 0, 256], 0) {
        ResolveStep::Done(r) => assert_eq!(r, 1, "a remembered name is not looked up"),
        ResolveStep::Lookup { .. } => panic!("the name is remembered"),
    }
}

#[test]
fn resolve_timeout_returns_eai_again() {
    let mut s = state(vec![], 10);
    let mut mem = named("slow.example.com");
    let r = call(&mut s, &mut mem, 0, &[LOCALHOST4], 100);
    assert_eq!(r, -3, "expected -EAI_AGAIN (-3) on timeout, got {r}");
}

#[test]
fn resolve_hints_filter_to_v6_only() {
    let mut s = state(vec![], 5_000);
    let mut mem = named("dual.example.com");
    mem[204..208].copy_from_slice(&10i32.to_le_bytes());
    let r = call(&mut s, &mut mem, 200, &[LOCALHOST4, LOCALHOST6], 0);
    assert!(r >= 0, "expected >= 0, got {r}");
    assert_eq!(r, 1, "expected exactly 1 v6 result, got {r}");
}

#[test]
fn an_old_answer_is_looked_up_again() {
    let mut s = ResolverState::default();
    s.configure(ResolverConfig { denylist: vec![], ttl_ms: 10, timeout_ms: 5_000 });
    let mut mem = named("aging.example.com");
    let a = [120, 0, 0, 0, 0, 256];
    let query = match resolve(&s, &mut mem, a, 0) {
        ResolveStep::Lookup { query, timeout_ms } => {
            assert_eq!(timeout_ms, 5_000);
            query
        }
        ResolveStep::Done(r) => panic!("got {r}"),
    };
    assert_eq!(resolve_done(&mut s, &mut mem, &query, LookupReply::Found(vec![LOCALHOST4]), 0), 1);
    assert!(matches!(resolve(&s, &mut mem, a, 1_000_000), ResolveStep::Done(1)));
    assert!(matches!(resolve(&s, &mut mem, a, 60_000_000), ResolveStep::Lookup { .. }));
}

/// Resolves the name at 120 with the result at 1024, against a stub that knows `addrs`.
fn looked_up(s: &mut ResolverState, mem: &mut [u8], addrs: &[IpAddr]) -> i64 {
    match resolve(s, mem, [120, 0, 0, 0, 0, 1024], 0) {
        ResolveStep::Done(r) => r,
        ResolveStep::Lookup { query, .. } => {
            resolve_done(s, mem, &query, LookupReply::Found(addrs.to_vec()), 0)
        }
    }
}

#[test]
fn a_second_answer_lays_out_the_same_nodes() {
    let mut s = state(vec![], 5_000);
    let mut mem = named("twice.example.com");
    assert_eq!(looked_up(&mut s, &mut mem, &[LOCALHOST4, LOCALHOST6]), 2);
    let scratch = RESOLVER_SCRATCH_BASE..RESOLVER_SCRATCH_BASE + 108;
    let first = mem.clone();
    mem[scratch.clone()].fill(0xee);
    mem[256..260].fill(0xee);
    mem.extend(vec![0u8; 65536]);
    assert!(matches!(resolve(&s, &mut mem, [120, 0, 0, 0, 0, 256], 0), ResolveStep::Done(2)));
    assert_eq!(mem[scratch.clone()], first[scratch]);
    assert_eq!(mem[256..260], [0, 0, 0, 0]);
}

#[test]
fn a_reply_too_long_for_the_scratch_area_is_refused() {
    for (count, expected) in [(85, 85), (86, EAI_MEMORY), (100_000, EAI_MEMORY)] {
        let mut s = state(vec![], 5_000);
        let mut mem = named("many.example.com");
        assert_eq!(looked_up(&mut s, &mut mem, &vec![LOCALHOST4; count]), expected);
        assert_eq!(looked_up(&mut s, &mut mem, &[]), expected);
    }
    let mut s = state(vec![], 5_000);
    let mut mem = named("many.example.com");
    assert_eq!(looked_up(&mut s, &mut mem, &vec![LOCALHOST6; 68]), 68);
    let mut s = state(vec![], 5_000);
    assert_eq!(looked_up(&mut s, &mut mem, &vec![LOCALHOST6; 69]), EAI_MEMORY);
}

#[test]
fn a_full_cache_loses_its_oldest_name_alone() {
    let mut s = state(vec![], 5_000);
    let a = [120, 0, 0, 0, 0, 1024];
    for i in 0..MAX_CACHE_ENTRIES + 1 {
        let mut mem = named(&format!("host{i}.example.com"));
        if let ResolveStep::Lookup { query, .. } = resolve(&s, &mut mem, a, 0) {
            assert_eq!(resolve_done(&mut s, &mut mem, &query, LookupReply::Found(vec![LOCALHOST4]), i as u64), 1);
        }
    }
    let mut mem = named("host0.example.com");
    assert!(matches!(resolve(&s, &mut mem, a, 0), ResolveStep::Lookup { .. }));
    let mut mem = named("host1.example.com");
    assert!(matches!(resolve(&s, &mut mem, a, 2000), ResolveStep::Done(1)));
}

#[test]
fn a_failed_lookup_is_not_remembered() {
    let mut s = state(vec![], 5_000);
    let mut mem = named("nowhere.example.com");
    let a = [120, 0, 0, 0, 0, 128];
    if let ResolveStep::Lookup { query, .. } = resolve(&s, &mut mem, a, 0) {
        assert!(resolve_done(&mut s, &mut mem, &query, LookupReply::Failed, 0) < 0);
    }
    assert!(matches!(resolve(&s, &mut mem, a, 0), ResolveStep::Lookup { .. }));
}

#[test]
fn texts_that_are_no_addresses_are_left_out() {
    let texts = "1.2.3.4,01.2.3.4,1.2.3,256.1.1.1,1:2:3:4:5:6:7:8,::,1::2::3,::ffff:1.2.3.4,g::1";
    let env = vec![("EDGE_RESOLVER_DENY".to_string(), texts.to_string())];
    let cfg = ResolverConfig::from_env(&env);
    assert_eq!(
        cfg.denylist,
        vec![
            IpAddr::V4([1, 2, 3, 4]),
            IpAddr::V6([0, 1, 0, 2, 0, 3, 0, 4, 0, 5, 0, 6, 0, 7, 0, 8]),
            IpAddr::V6([0; 16]),
            IpAddr::V6([0, 0, 0, 0, 0, 0, 0, 0, 0, 0, 0xff, 0xff, 1, 2, 3, 4]),
        ]
    );
}
