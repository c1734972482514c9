//! Little-endian byte strings as numbers.

use vstd::prelude::*;

verus! {

/// The `n` low bytes of `x`, least significant first.
pub open spec fn le(x: nat, n: nat) -> Seq<u8>
    decreases n,
{
    if n == 0 {
        Seq::empty()
    } else {
        seq![(x % 256) as u8] + le(x / 256, (n - 1) as nat)
    }
}

/// The number that `s` spells, least significant byte first.
pub open spec fn le_value(s: Seq<u8>) -> nat
    decreases s.len(),
{
    if s.len() == 0 {
        0
    } else {
        s[0] as nat + 256 * le_value(s.drop_first())
    }
}

/// How many numbers `n` bytes can spell.
pub open spec fn pow256(n: nat) -> nat
    decreases n,
{
    if n == 0 {
        1
    } else {
        256 * pow256((n - 1) as nat)
    }
}

/// The two's complement pattern of a 64-bit integer.
pub open spec fn word64(x: i64) -> nat {
    if x < 0 {
        (x + 0x1_0000_0000_0000_0000) as nat
    } else {
        x as nat
    }
}

/// The two's complement pattern of a 32-bit integer.
pub open spec fn word32(x: i32) -> nat {
    if x < 0 {
        (x + 0x1_0000_0000) as nat
    } else {
        x as nat
    }
}

/// The 64-bit integer whose two's complement pattern is `w`.
pub open spec fn int64(w: nat) -> int {
    if w >= 0x8000_0000_0000_0000 {
        w - 0x1_0000_0000_0000_0000
    } else {
        w as int
    }
}

/// The 32-bit integer whose two's complement pattern is `w`.
pub open spec fn int32(w: nat) -> int {
    if w >= 0x8000_0000 {
        w - 0x1_0000_0000
    } else {
        w as int
    }
}

/// The two's complement pattern of a 16-bit integer.
pub open spec fn word16(x: i16) -> nat {
    if x < 0 {
        (x + 0x1_0000) as nat
    } else {
        x as nat
    }
}

/// The 16-bit integer whose two's complement pattern is `w`.
pub open spec fn int16(w: nat) -> int {
    if w >= 0x8000 {
        w - 0x1_0000
    } else {
        w as int
    }
}

/// `n` zero bytes.
pub open spec fn zeros(n: nat) -> Seq<u8> {
    Seq::new(n, |i: int| 0u8)
}

/// An encoding of `n` bytes is `n` bytes long.
pub broadcast proof fn le_len(x: nat, n: nat)
    ensures
        #[trigger] le(x, n).len() == n,
    decreases n,
{
    if n > 0 {
        le_len(x / 256, (n - 1) as nat);
    }
}

/// Decoding an encoding gives the number back, if `n` bytes can spell it.
pub proof fn le_round_trip(x: nat, n: nat)
    requires
        x < pow256(n),
    ensures
        le_value(le(x, n)) == x,
    decreases n,
{
    if n > 0 {
        le_round_trip(x / 256, (n - 1) as nat);
        le_len(x / 256, (n - 1) as nat);
        assert(le(x, n).drop_first() =~= le(x / 256, (n - 1) as nat));
    }
}

/// Encoding a decoded byte string gives the byte string back.
pub proof fn le_of_value(s: Seq<u8>)
    ensures
        le(le_value(s), s.len()) == s,
        le_value(s) < pow256(s.len()),
    decreases s.len(),
{
    if s.len() > 0 {
        let t = s.drop_first();
        le_of_value(t);
        let v = le_value(s);
        assert(v % 256 == s[0] && v / 256 == le_value(t)) by (nonlinear_arith)
            requires
                v == s[0] as nat + 256 * le_value(t),
                s[0] < 256,
        ;
        assert(le(v, s.len()) =~= s);
    } else {
        assert(le(le_value(s), 0) =~= s);
    }
}

/// The first powers of 256.
pub proof fn pow256_values()
    ensures
        pow256(0) == 1,
        pow256(1) == 0x100,
        pow256(2) == 0x1_0000,
        pow256(4) == 0x1_0000_0000,
        pow256(8) == 0x1_0000_0000_0000_0000,
{
    reveal_with_fuel(pow256, 9);
}

/// Append the `n` low bytes of `x` to `out`.
pub fn push_le(out: &mut Vec<u8>, x: u64, n: usize)
    requires
        n <= 8,
    ensures
        final(out)@ == old(out)@ + le(x as nat, n as nat),
{
    let mut rest: u64 = x;
    let mut i: usize = 0;
    assert(out@ + le(rest as nat, n as nat) =~= old(out)@ + le(x as nat, n as nat));
    while i < n
        invariant
            i <= n,
            out@ + le(rest as nat, (n - i) as nat) == old(out)@ + le(x as nat, n as nat),
        decreases n - i,
    {
        let ghost before = out@;
        let b: u8 = (rest % 256) as u8;
        out.push(b);
        assert(out@ + le((rest / 256) as nat, (n - i - 1) as nat) =~= before + le(
            rest as nat,
            (n - i) as nat,
        ));
        rest = rest / 256;
        i = i + 1;
    }
    assert(out@ + le(rest as nat, 0) =~= out@);
}

/// Append `n` zero bytes to `out`.
pub fn push_zeros(out: &mut Vec<u8>, n: usize)
    ensures
        final(out)@ == old(out)@ + zeros(n as nat),
{
    let mut i: usize = 0;
    assert(out@ =~= old(out)@ + zeros(0));
    while i < n
        invariant
            i <= n,
            out@ == old(out)@ + zeros(i as nat),
        decreases n - i,
    {
        out.push(0);
        i = i + 1;
        assert(out@ =~= old(out)@ + zeros(i as nat));
    }
}

/// Append a copy of `s` to `out`.
pub fn push_bytes(out: &mut Vec<u8>, s: &[u8])
    ensures
        final(out)@ == old(out)@ + s@,
{
    let n: usize = s.len();
    let mut i: usize = 0;
    assert(out@ =~= old(out)@ + s@.take(0));
    while i < n
        invariant
            i <= n,
            n == s@.len(),
            out@ == old(out)@ + s@.take(i as int),
        decreases n - i,
    {
        out.push(s[i]);
        i = i + 1;
        assert(out@ =~= old(out)@ + s@.take(i as int));
    }
    assert(s@.take(n as int) =~= s@);
}

/// The number spelled by the `n` bytes of `s` that start at `at`.
pub fn read_le(s: &[u8], at: usize, n: usize) -> (r: u64)
    requires
        n <= 8,
        at + n <= s@.len(),
    ensures
        r == le_value(s@.subrange(at as int, at + n)),
        r < pow256(n as nat),
{
    let total: usize = s.len();
    let mut r: u64 = 0;
    let mut i: usize = n;
    proof {
        pow256_values();
        le_of_value(s@.subrange(at as int, at + n));
        assert(s@.subrange(at + n, at + n) =~= Seq::<u8>::empty());
        pow256_step(0);
        pow256_monotone(n as nat, 8);
    }
    while i > 0
        invariant
            i <= n <= 8,
            at + n <= s@.len(),
            total == s@.len(),
            r == le_value(s@.subrange(at + i, at + n)),
            r < pow256((n - i) as nat),
            pow256((n - i) as nat) * pow256(i as nat) == pow256(n as nat),
            pow256(n as nat) <= 0x1_0000_0000_0000_0000,
        decreases i,
    {
        i = i - 1;
        let b: u8 = s[at + i];
        proof {
            let t = s@.subrange(at + i, at + n);
            assert(t.drop_first() =~= s@.subrange(at + i + 1, at + n));
            assert(t[0] == b);
            assert(pow256((i + 1) as nat) == 256 * pow256(i as nat));
            assert(pow256((n - i) as nat) == 256 * pow256((n - i - 1) as nat));
            pow256_step(i as nat);
            assert(256 * r + b < pow256((n - i) as nat));
            assert(pow256((n - i) as nat) * pow256(i as nat) == pow256(n as nat)
                && pow256((n - i) as nat) <= pow256(n as nat)) by (nonlinear_arith)
                requires
                    pow256((n - i) as nat) == 256 * pow256((n - i - 1) as nat),
                    pow256((i + 1) as nat) == 256 * pow256(i as nat),
                    pow256((n - i - 1) as nat) * pow256((i + 1) as nat) == pow256(n as nat),
                    pow256(i as nat) >= 1,
            ;
        }
        r = 256 * r + b as u64;
    }
    proof {
        pow256_step(0);
    }
    r
}

proof fn pow256_step(n: nat)
    ensures
        pow256(n) >= 1,
        pow256(0) == 1,
    decreases n,
{
    if n > 0 {
        pow256_step((n - 1) as nat);
    }
}

proof fn pow256_monotone(n: nat, m: nat)
    requires
        n <= m,
    ensures
        pow256(n) <= pow256(m),
    decreases m,
{
    if n < m {
        pow256_monotone(n, (m - 1) as nat);
        pow256_step((m - 1) as nat);
    }
}

/// The pattern of a signed 64-bit integer.
pub fn to_word64(x: i64) -> (r: u64)
    ensures
        r == word64(x),
{
    let r: u64 = x as u64;
    assert(r as int == (if x < 0 { x + 0x1_0000_0000_0000_0000 } else { x as int })) by (bit_vector)
        requires
            r == x as u64,
    ;
    r
}

/// The pattern of a signed 32-bit integer.
pub fn to_word32(x: i32) -> (r: u32)
    ensures
        r == word32(x),
{
    let r: u32 = x as u32;
    assert(r as int == (if x < 0 { x + 0x1_0000_0000 } else { x as int })) by (bit_vector)
        requires
            r == x as u32,
    ;
    r
}

/// The signed 64-bit integer of a pattern.
pub fn to_int64(w: u64) -> (r: i64)
    ensures
        r == int64(w as nat),
        word64(r) == w,
{
    let r: i64 = w as i64;
    assert(r as int == (if w >= 0x8000_0000_0000_0000 { w - 0x1_0000_0000_0000_0000 } else { w as int }))
        by (bit_vector)
        requires
            r == w as i64,
    ;
    r
}

/// The signed 32-bit integer of a pattern.
pub fn to_int32(w: u32) -> (r: i32)
    ensures
        r == int32(w as nat),
        word32(r) == w,
{
    let r: i32 = w as i32;
    assert(r as int == (if w >= 0x8000_0000 { w - 0x1_0000_0000 } else { w as int })) by (bit_vector)
        requires
            r == w as i32,
    ;
    r
}

/// The pattern of a signed 16-bit integer.
pub fn to_word16(x: i16) -> (r: u16)
    ensures
        r == word16(x),
{
    if x < 0 {
        (x as i32 + 0x1_0000) as u16
    } else {
        x as u16
    }
}

/// The signed 16-bit integer of a pattern.
pub fn to_int16(w: u16) -> (r: i16)
    ensures
        r == int16(w as nat),
        word16(r) == w,
{
    if w >= 0x8000 {
        (w as i32 - 0x1_0000) as i16
    } else {
        w as i16
    }
}

} // verus!
