//! Internet addresses and their text.

use vstd::prelude::*;

verus! {

/// An internet address, its bytes in network order.
#[derive(Clone, Copy, PartialEq, Eq, Debug)]
pub enum IpAddr {
    V4([u8; 4]),
    V6([u8; 16]),
}

pub enum IpModel {
    V4(Seq<u8>),
    V6(Seq<u8>),
}

impl View for IpAddr {
    type V = IpModel;

    open spec fn view(&self) -> IpModel {
        match self {
            IpAddr::V4(b) => IpModel::V4(b@),
            IpAddr::V6(b) => IpModel::V6(b@),
        }
    }
}

/// The addresses of a list.
pub open spec fn ips(s: Seq<IpAddr>) -> Seq<IpModel> {
    s.map_values(|a: IpAddr| a@)
}

impl IpAddr {
    pub fn is_ipv4(&self) -> (r: bool)
        ensures
            r == (self@ is V4),
    {
        match self {
            IpAddr::V4(_) => true,
            IpAddr::V6(_) => false,
        }
    }

    pub fn is_ipv6(&self) -> (r: bool)
        ensures
            r == (self@ is V6),
    {
        !self.is_ipv4()
    }

    /// Whether the two addresses are the same.
    pub fn same(&self, other: &IpAddr) -> (r: bool)
        ensures
            r == (self@ == other@),
    {
        match (self, other) {
            (IpAddr::V4(x), IpAddr::V4(y)) => {
                let mut i: usize = 0;
                while i < 4
                    invariant
                        i <= 4,
                        self@ == IpModel::V4(x@),
                        other@ == IpModel::V4(y@),
                        forall|j: int| 0 <= j < i ==> x@[j] == y@[j],
                    decreases 4 - i,
                {
                    if x[i] != y[i] {
                        assert(x@[i as int] != y@[i as int]);
                        return false;
                    }
                    i = i + 1;
                }
                assert(x@ =~= y@);
                true
            },
            (IpAddr::V6(x), IpAddr::V6(y)) => {
                let mut i: usize = 0;
                while i < 16
                    invariant
                        i <= 16,
                        self@ == IpModel::V6(x@),
                        other@ == IpModel::V6(y@),
                        forall|j: int| 0 <= j < i ==> x@[j] == y@[j],
                    decreases 16 - i,
                {
                    if x[i] != y[i] {
                        assert(x@[i as int] != y@[i as int]);
                        return false;
                    }
                    i = i + 1;
                }
                assert(x@ =~= y@);
                true
            },
            _ => false,
        }
    }
}

/// The pieces of `s` between the separators, one more than there are separators.
pub open spec fn pieces(s: Seq<char>, sep: char) -> Seq<Seq<char>>
    decreases s.len(),
{
    if s.len() == 0 {
        seq![Seq::empty()]
    } else {
        let p = pieces(s.drop_last(), sep);
        if s.last() == sep {
            p.push(Seq::empty())
        } else {
            p.drop_last().push(p.last().push(s.last()))
        }
    }
}

/// The text of a list.
pub open spec fn texts(v: Seq<Vec<char>>) -> Seq<Seq<char>> {
    v.map_values(|t: Vec<char>| t@)
}

/// The pieces of `s` between the separators.
pub fn split(s: &Vec<char>, sep: char) -> (r: Vec<Vec<char>>)
    ensures
        texts(r@) == pieces(s@, sep),
        r@.len() >= 1,
{
    let mut done: Vec<Vec<char>> = Vec::new();
    let mut last: Vec<char> = Vec::new();
    let n: usize = s.len();
    let mut i: usize = 0;
    assert(s@.take(0) =~= Seq::empty());
    assert(last@ =~= Seq::empty());
    assert(texts(done@).push(last@) =~= seq![Seq::empty()]);
    while i < n
        invariant
            i <= n,
            n == s@.len(),
            texts(done@).push(last@) == pieces(s@.take(i as int), sep),
        decreases n - i,
    {
        let ghost before = s@.take(i as int);
        let ghost p = pieces(before, sep);
        assert(s@.take(i + 1).drop_last() =~= before);
        assert(p.drop_last() =~= texts(done@));
        let c: char = s[i];
        if c == sep {
            let ghost d = done@;
            let ghost l = last@;
            done.push(last);
            last = Vec::new();
            assert(last@ =~= Seq::empty());
            assert(texts(done@) =~= texts(d).push(l));
        } else {
            last.push(c);
        }
        i = i + 1;
    }
    assert(s@.take(n as int) =~= s@);
    let ghost d = done@;
    let ghost l = last@;
    done.push(last);
    assert(texts(done@) =~= texts(d).push(l));
    done
}

/// Whether `c` is one of the characters with the Unicode property White_Space.
pub open spec fn is_white(c: char) -> bool {
    let n = c as u32;
    ||| 0x09 <= n <= 0x0d
    ||| n == 0x20
    ||| n == 0x85
    ||| n == 0xa0
    ||| n == 0x1680
    ||| 0x2000 <= n <= 0x200a
    ||| n == 0x2028
    ||| n == 0x2029
    ||| n == 0x202f
    ||| n == 0x205f
    ||| n == 0x3000
}

/// `s` without the white space before and after it.
pub open spec fn trimmed(s: Seq<char>) -> Seq<char>
    decreases s.len(),
{
    if s.len() > 0 && is_white(s[0]) {
        trimmed(s.drop_first())
    } else if s.len() > 0 && is_white(s.last()) {
        trimmed(s.drop_last())
    } else {
        s
    }
}

fn white(c: char) -> (r: bool)
    ensures
        r == is_white(c),
{
    let n: u32 = c as u32;
    (0x09 <= n && n <= 0x0d) || n == 0x20 || n == 0x85 || n == 0xa0 || n == 0x1680 || (0x2000 <= n
        && n <= 0x200a) || n == 0x2028 || n == 0x2029 || n == 0x202f || n == 0x205f || n == 0x3000
}

/// `s` without the white space before and after it.
pub fn trim(s: &Vec<char>) -> (r: Vec<char>)
    ensures
        r@ == trimmed(s@),
{
    let mut lo: usize = 0;
    let mut hi: usize = s.len();
    assert(s@.subrange(0, hi as int) =~= s@);
    while lo < hi && white(s[lo])
        invariant
            lo <= hi <= s@.len(),
            trimmed(s@.subrange(lo as int, hi as int)) == trimmed(s@),
        ensures
            lo <= hi <= s@.len(),
            trimmed(s@.subrange(lo as int, hi as int)) == trimmed(s@),
            lo < hi ==> !is_white(s@[lo as int]),
        decreases hi - lo,
    {
        assert(s@.subrange(lo as int, hi as int).drop_first() =~= s@.subrange(
            lo + 1,
            hi as int,
        ));
        lo = lo + 1;
    }
    while lo < hi && white(s[hi - 1])
        invariant
            lo <= hi <= s@.len(),
            trimmed(s@.subrange(lo as int, hi as int)) == trimmed(s@),
            lo < hi ==> !is_white(s@[lo as int]),
        ensures
            lo <= hi <= s@.len(),
            trimmed(s@.subrange(lo as int, hi as int)) == trimmed(s@),
            lo < hi ==> !is_white(s@[lo as int]),
            lo < hi ==> !is_white(s@[hi - 1]),
        decreases hi - lo,
    {
        assert(s@.subrange(lo as int, hi as int).drop_last() =~= s@.subrange(
            lo as int,
            hi - 1,
        ));
        hi = hi - 1;
    }
    slice(s, lo, hi)
}

/// The characters from `lo` up to `hi`.
fn slice(s: &Vec<char>, lo: usize, hi: usize) -> (r: Vec<char>)
    requires
        lo <= hi <= s@.len(),
    ensures
        r@ == s@.subrange(lo as int, hi as int),
{
    let mut out: Vec<char> = Vec::new();
    let mut i: usize = lo;
    assert(out@ =~= s@.subrange(lo as int, lo as int));
    while i < hi
        invariant
            lo <= i <= hi <= s@.len(),
            out@ == s@.subrange(lo as int, i as int),
        decreases hi - i,
    {
        out.push(s[i]);
        i = i + 1;
        assert(out@ =~= s@.subrange(lo as int, i as int));
    }
    out
}

/// The value of `c` as a digit in base 16; none where it is not one.
pub open spec fn digit(c: char) -> Option<int> {
    let n = c as u32;
    if 0x30 <= n <= 0x39 {
        Some(n - 0x30)
    } else if 0x41 <= n <= 0x46 {
        Some(n - 0x41 + 10)
    } else if 0x61 <= n <= 0x66 {
        Some(n - 0x61 + 10)
    } else {
        None
    }
}

/// Whether every character of `s` is a digit in this base.
pub open spec fn all_digits(s: Seq<char>, base: int) -> bool {
    forall|i: int| 0 <= i < s.len() ==> (digit(#[trigger] s[i]) matches Some(d) && d < base)
}

/// The number that the digits of `s` spell in this base.
pub open spec fn digits_value(s: Seq<char>, base: nat) -> nat
    decreases s.len(),
{
    if s.len() == 0 {
        0
    } else {
        (digits_value(s.drop_last(), base) * base + digit(s.last())->Some_0) as nat
    }
}

fn digit_of(c: char) -> (r: Option<u64>)
    ensures
        match r {
            Some(d) => digit(c) == Some(d as int) && d < 16,
            None => digit(c) is None,
        },
{
    let n: u32 = c as u32;
    if 0x30 <= n && n <= 0x39 {
        Some((n - 0x30) as u64)
    } else if 0x41 <= n && n <= 0x46 {
        Some((n - 0x41 + 10) as u64)
    } else if 0x61 <= n && n <= 0x66 {
        Some((n - 0x61 + 10) as u64)
    } else {
        None
    }
}

proof fn value_grows(s: Seq<char>, n: int, base: nat)
    requires
        0 <= n <= s.len(),
        base >= 2,
        all_digits(s, base as int),
    ensures
        digits_value(s.take(n), base) <= digits_value(s, base),
    decreases s.len() - n,
{
    if n < s.len() {
        let a = s.take(n);
        let b = s.take(n + 1);
        assert(b.drop_last() =~= a);
        assert(digit(s[n]) is Some);
        let x = digits_value(a, base);
        assert(x * base >= x) by (nonlinear_arith)
            requires
                base >= 1,
                x >= 0,
        ;
        value_grows(s, n + 1, base);
    } else {
        assert(s.take(n) =~= s);
    }
}

/// The number that `s` spells in this base, if it is made of digits, has at least one
/// and spells no more than `max`.
pub open spec fn bounded_number(s: Seq<char>, base: nat, max: nat) -> Option<nat> {
    if s.len() > 0 && all_digits(s, base as int) && digits_value(s, base) <= max {
        Some(digits_value(s, base))
    } else {
        None
    }
}

/// The number that `s` spells in this base, up to `max`.
fn read_number(s: &Vec<char>, base: u64, max: u64) -> (r: Option<u64>)
    requires
        2 <= base <= 16,
    ensures
        match r {
            Some(v) => bounded_number(s@, base as nat, max as nat) == Some(v as nat),
            None => bounded_number(s@, base as nat, max as nat) is None,
        },
{
    let n: usize = s.len();
    if n == 0 {
        return None;
    }
    let mut v: u64 = 0;
    let mut i: usize = 0;
    assert(s@.take(0) =~= Seq::empty());
    while i < n
        invariant
            i <= n,
            n == s@.len(),
            2 <= base <= 16,
            v <= max,
            v == digits_value(s@.take(i as int), base as nat),
            forall|j: int| 0 <= j < i ==> (digit(#[trigger] s@[j]) matches Some(d) && d < base),
        decreases n - i,
    {
        assert(s@.take(i + 1).drop_last() =~= s@.take(i as int));
        let d: u64 = match digit_of(s[i]) {
            Some(d) => d,
            None => {
                assert(digit(s@[i as int]) is None);
                return None;
            },
        };
        if d >= base {
            assert(digit(s@[i as int]) == Some(d as int));
            return None;
        }
        assert(0 <= v * base <= 0xffff_ffff_ffff_ffff * 16) by (nonlinear_arith)
            requires
                0 <= v <= 0xffff_ffff_ffff_ffff,
                2 <= base <= 16,
        ;
        let wide: u128 = v as u128 * base as u128 + d as u128;
        assert(wide == digits_value(s@.take(i + 1), base as nat));
        if wide > max as u128 {
            proof {
                if all_digits(s@, base as int) {
                    value_grows(s@, i + 1, base as nat);
                }
            }
            return None;
        }
        v = wide as u64;
        i = i + 1;
    }
    assert(s@.take(n as int) =~= s@);
    Some(v)
}

/// The unsigned number that `s` spells in decimal, with or without a plus sign, up to
/// `max`.
pub open spec fn unsigned(s: Seq<char>, max: nat) -> Option<nat> {
    if s.len() > 0 && s[0] == '+' {
        bounded_number(s.drop_first(), 10, max)
    } else {
        bounded_number(s, 10, max)
    }
}

/// The unsigned number that `s` spells in decimal, up to `max`.
pub fn parse_unsigned(s: &Vec<char>, max: u64) -> (r: Option<u64>)
    ensures
        match r {
            Some(v) => unsigned(s@, max as nat) == Some(v as nat),
            None => unsigned(s@, max as nat) is None,
        },
{
    if s.len() > 0 && s[0] == '+' {
        let rest: Vec<char> = slice(s, 1, s.len());
        assert(rest@ =~= s@.drop_first());
        read_number(&rest, 10, max)
    } else {
        read_number(s, 10, max)
    }
}

/// The byte that one part of an IPv4 address spells: no more than 255, and with no
/// zero in front.
pub open spec fn octet(s: Seq<char>) -> Option<nat> {
    if s.len() > 1 && s[0] == '0' {
        None
    } else {
        bounded_number(s, 10, 255)
    }
}

/// The bytes of the IPv4 address that `s` spells: four parts, with dots between.
pub open spec fn v4_bytes(s: Seq<char>) -> Option<Seq<u8>> {
    let p = pieces(s, '.');
    if p.len() == 4 && octet(p[0]) is Some && octet(p[1]) is Some && octet(p[2]) is Some && octet(
        p[3],
    ) is Some {
        Some(
            seq![
                octet(p[0])->Some_0 as u8,
                octet(p[1])->Some_0 as u8,
                octet(p[2])->Some_0 as u8,
                octet(p[3])->Some_0 as u8,
            ],
        )
    } else {
        None
    }
}

/// The 16 bits that one part of an IPv6 address spells: one to four digits.
pub open spec fn hex_word(s: Seq<char>) -> Option<nat> {
    if s.len() <= 4 {
        bounded_number(s, 16, 0xffff)
    } else {
        None
    }
}

/// A 16-bit word, the high byte first.
pub open spec fn be_word(w: nat) -> Seq<u8> {
    seq![(w / 256) as u8, (w % 256) as u8]
}

/// The bytes that the parts `p` of an IPv6 address spell, if each is a word.
pub open spec fn words_bytes(p: Seq<Seq<char>>) -> Option<Seq<u8>>
    decreases p.len(),
{
    if p.len() == 0 {
        Some(Seq::empty())
    } else {
        match (words_bytes(p.drop_last()), hex_word(p.last())) {
            (Some(b), Some(w)) => Some(b + be_word(w)),
            _ => None,
        }
    }
}

/// The bytes that a run of parts with colons between spells; the last part may be an
/// IPv4 address where `tail` allows it.
pub open spec fn run_bytes(s: Seq<char>, tail: bool) -> Option<Seq<u8>> {
    let p = pieces(s, ':');
    if s.len() == 0 {
        Some(Seq::empty())
    } else if tail && v4_bytes(p.last()) is Some {
        match words_bytes(p.drop_last()) {
            Some(b) => Some(b + v4_bytes(p.last())->Some_0),
            None => None,
        }
    } else {
        words_bytes(p)
    }
}

/// Whether a double colon stands at `i`.
pub open spec fn gap_at(s: Seq<char>, i: int) -> bool {
    0 <= i && i + 1 < s.len() && s[i] == ':' && s[i + 1] == ':'
}

/// Whether the first double colon stands at `i`.
pub open spec fn first_gap(s: Seq<char>, i: int) -> bool {
    gap_at(s, i) && forall|j: int| 0 <= j < i ==> !#[trigger] gap_at(s, j)
}

/// The bytes of the IPv6 address that `s` spells around the double colon at `i`, which
/// stands for at least one word of zeros.
pub open spec fn v6_with_gap(s: Seq<char>, i: int) -> Option<Seq<u8>> {
    match (run_bytes(s.take(i), false), run_bytes(s.skip(i + 2), true)) {
        (Some(a), Some(b)) => if a.len() + b.len() <= 14 {
            Some(a + Seq::new((16 - a.len() - b.len()) as nat, |k: int| 0u8) + b)
        } else {
            None
        },
        _ => None,
    }
}

/// The bytes of the IPv6 address that `s` spells.
pub open spec fn v6_bytes(s: Seq<char>) -> Option<Seq<u8>> {
    if exists|i: int| first_gap(s, i) {
        v6_with_gap(s, choose|i: int| first_gap(s, i))
    } else {
        match run_bytes(s, true) {
            Some(b) => if b.len() == 16 {
                Some(b)
            } else {
                None
            },
            None => None,
        }
    }
}

/// The address that `s` spells.
pub open spec fn ip_of(s: Seq<char>) -> Option<IpModel> {
    match v4_bytes(s) {
        Some(b) => Some(IpModel::V4(b)),
        None => match v6_bytes(s) {
            Some(b) => Some(IpModel::V6(b)),
            None => None,
        },
    }
}

fn read_octet(s: &Vec<char>) -> (r: Option<u8>)
    ensures
        match r {
            Some(v) => octet(s@) == Some(v as nat),
            None => octet(s@) is None,
        },
{
    if s.len() > 1 && s[0] == '0' {
        return None;
    }
    match read_number(s, 10, 255) {
        Some(v) => Some(v as u8),
        None => None,
    }
}

/// The bytes of the IPv4 address that `s` spells.
pub fn parse_v4(s: &Vec<char>) -> (r: Option<[u8; 4]>)
    ensures
        match r {
            Some(b) => v4_bytes(s@) == Some(b@),
            None => v4_bytes(s@) is None,
        },
{
    let p: Vec<Vec<char>> = split(s, '.');
    assert(texts(p@).len() == p@.len());
    if p.len() != 4 {
        return None;
    }
    assert(forall|i: int| 0 <= i < 4 ==> texts(p@)[i] == (#[trigger] p@[i])@);
    match (read_octet(&p[0]), read_octet(&p[1]), read_octet(&p[2]), read_octet(&p[3])) {
        (Some(a), Some(b), Some(c), Some(d)) => {
            let out: [u8; 4] = [a, b, c, d];
            assert(out@ =~= v4_bytes(s@)->Some_0);
            Some(out)
        },
        _ => None,
    }
}

fn read_words(p: &Vec<Vec<char>>, n: usize) -> (r: Option<Vec<u8>>)
    requires
        n <= p@.len(),
    ensures
        match r {
            Some(b) => words_bytes(texts(p@).take(n as int)) == Some(b@),
            None => words_bytes(texts(p@).take(n as int)) is None,
        },
{
    let mut out: Vec<u8> = Vec::new();
    let mut i: usize = 0;
    let ghost t = texts(p@);
    assert(t.take(0) =~= Seq::empty());
    assert(out@ =~= Seq::empty());
    while i < n
        invariant
            i <= n,
            n <= p@.len(),
            t == texts(p@),
            words_bytes(t.take(i as int)) == Some(out@),
        decreases n - i,
    {
        assert(t.take(i + 1).drop_last() =~= t.take(i as int));
        assert(t.take(i + 1).last() == p@[i as int]@);
        let w: Option<u64> = if p[i].len() <= 4 {
            read_number(&p[i], 16, 0xffff)
        } else {
            None
        };
        match w {
            Some(w) => {
                let ghost before = out@;
                out.push((w / 256) as u8);
                out.push((w % 256) as u8);
                assert(out@ =~= before + be_word(w as nat));
            },
            None => {
                proof {
                    words_prefix(t, i + 1, n as int);
                }
                return None;
            },
        }
        i = i + 1;
    }
    Some(out)
}

proof fn words_prefix(t: Seq<Seq<char>>, i: int, n: int)
    requires
        0 <= i <= n <= t.len(),
        words_bytes(t.take(i)) is None,
    ensures
        words_bytes(t.take(n)) is None,
    decreases n - i,
{
    if i < n {
        assert(t.take(i + 1).drop_last() =~= t.take(i));
        words_prefix(t, i + 1, n);
    }
}

fn read_run(s: &Vec<char>, tail: bool) -> (r: Option<Vec<u8>>)
    ensures
        match r {
            Some(b) => run_bytes(s@, tail) == Some(b@),
            None => run_bytes(s@, tail) is None,
        },
{
    if s.len() == 0 {
        let none: Vec<u8> = Vec::new();
        assert(none@ =~= Seq::empty());
        return Some(none);
    }
    let p: Vec<Vec<char>> = split(s, ':');
    let n: usize = p.len();
    let ghost t = texts(p@);
    assert(t.len() == n);
    assert(t.last() == p@[n - 1]@);
    assert(t.take(n - 1) =~= t.drop_last());
    assert(t.take(n as int) =~= t);
    if tail {
        match parse_v4(&p[n - 1]) {
            Some(v4) => {
                match read_words(&p, n - 1) {
                    Some(b) => {
                        let mut out: Vec<u8> = b;
                        let ghost before = out@;
                        out.push(v4[0]);
                        out.push(v4[1]);
                        out.push(v4[2]);
                        out.push(v4[3]);
                        assert(out@ =~= before + v4@);
                        return Some(out);
                    },
                    None => {
                        return None;
                    },
                }
            },
            None => {},
        }
    }
    read_words(&p, n)
}

/// Where the first double colon stands.
fn find_gap(s: &Vec<char>) -> (r: Option<usize>)
    ensures
        match r {
            Some(i) => first_gap(s@, i as int) && (choose|j: int| first_gap(s@, j)) == i,
            None => !exists|i: int| first_gap(s@, i),
        },
{
    let n: usize = s.len();
    let mut i: usize = 0;
    while i < n
        invariant
            i <= n,
            n == s@.len(),
            forall|j: int| 0 <= j < i ==> !#[trigger] gap_at(s@, j),
        decreases n - i,
    {
        if s[i] == ':' && i + 1 < n && s[i + 1] == ':' {
            proof {
                assert(gap_at(s@, i as int));
                assert(first_gap(s@, i as int));
                let c = choose|j: int| first_gap(s@, j);
                assert(first_gap(s@, c));
                if c < i {
                    assert(!gap_at(s@, c));
                }
                if i < c {
                    assert(!gap_at(s@, i as int));
                }
            }
            return Some(i);
        }
        assert(!gap_at(s@, i as int));
        i = i + 1;
    }
    proof {
        if exists|i: int| first_gap(s@, i) {
            let c = choose|j: int| first_gap(s@, j);
            assert(gap_at(s@, c));
        }
    }
    None
}

/// Sixteen bytes: `a`, zeros, and `b` at the end.
fn fill(a: &Vec<u8>, b: &Vec<u8>) -> (r: [u8; 16])
    requires
        a@.len() + b@.len() <= 16,
    ensures
        r@ == a@ + Seq::new((16 - a@.len() - b@.len()) as nat, |k: int| 0u8) + b@,
{
    let mut out: [u8; 16] = [0u8;16];
    let n: usize = a.len();
    let m: usize = b.len();
    let mut i: usize = 0;
    while i < 16
        invariant
            i <= 16,
            n == a@.len(),
            m == b@.len(),
            n + m <= 16,
            out@.len() == 16,
            forall|j: int|
                0 <= j < i ==> out@[j] == (a@ + Seq::new((16 - n - m) as nat, |k: int| 0u8) + b@)[j],
        decreases 16 - i,
    {
        if i < n {
            out[i] = a[i];
        } else if i >= 16 - m {
            out[i] = b[i - (16 - m)];
        } else {
            out[i] = 0;
        }
        i = i + 1;
    }
    assert(out@ =~= a@ + Seq::new((16 - a@.len() - b@.len()) as nat, |k: int| 0u8) + b@);
    out
}

/// The bytes of the IPv6 address that `s` spells.
pub fn parse_v6(s: &Vec<char>) -> (r: Option<[u8; 16]>)
    ensures
        match r {
            Some(b) => v6_bytes(s@) == Some(b@),
            None => v6_bytes(s@) is None,
        },
{
    match find_gap(s) {
        Some(i) => {
            let n: usize = s.len();
            let head: Vec<char> = slice(s, 0, i);
            let tail: Vec<char> = slice(s, i + 2, n);
            assert(head@ =~= s@.take(i as int));
            assert(tail@ =~= s@.skip(i + 2));
            match (read_run(&head, false), read_run(&tail, true)) {
                (Some(a), Some(b)) => {
                    let x: usize = a.len();
                    let y: usize = b.len();
                    if x > 14 || y > 14 - x {
                        return None;
                    }
                    Some(fill(&a, &b))
                },
                _ => None,
            }
        },
        None => match read_run(s, true) {
            Some(b) => {
                if b.len() != 16 {
                    return None;
                }
                let none: Vec<u8> = Vec::new();
                let out: [u8; 16] = fill(&b, &none);
                assert(out@ =~= b@);
                Some(out)
            },
            None => None,
        },
    }
}

/// The address that `s` spells.
pub fn parse_ip(s: &Vec<char>) -> (r: Option<IpAddr>)
    ensures
        match r {
            Some(a) => ip_of(s@) == Some(a@),
            None => ip_of(s@) is None,
        },
{
    match parse_v4(s) {
        Some(b) => Some(IpAddr::V4(b)),
        None => match parse_v6(s) {
            Some(b) => Some(IpAddr::V6(b)),
            None => None,
        },
    }
}

} // verus!
