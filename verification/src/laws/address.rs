//! Addresses as text, and what the environment says of the resolver.

use vstd::prelude::*;
use crate::ip::bounded_number;
use crate::ip::digit;
use crate::ip::digits_value;
use crate::ip::first_gap;
use crate::ip::gap_at;
use crate::ip::hex_word;
use crate::ip::ip_of;
use crate::ip::is_white;
use crate::ip::pieces;
use crate::ip::trimmed;
use crate::ip::unsigned;
use crate::ip::v4_bytes;
use crate::ip::v6_bytes;
use crate::ip::words_bytes;
use crate::ip::IpModel;
use crate::sys::resolver::config_of;
use crate::sys::resolver::configured;
use crate::sys::resolver::listed_ips;
use crate::sys::resolver::reconfigured;
use crate::sys::resolver::ConfigModel;
use crate::sys::resolver::ResolverModel;

verus! {

/// Whether `c` does not occur in `s`.
pub open spec fn without(s: Seq<char>, c: char) -> bool {
    forall|i: int| 0 <= i < s.len() ==> #[trigger] s[i] != c
}

/// A text falls into pieces at its separators and nowhere else: one without a separator
/// is a single piece, and the pieces of two texts with a separator between are those of
/// the first and then those of the second.
pub proof fn a_text_splits_at_separators(a: Seq<char>, sep: char, b: Seq<char>)
    ensures
        without(a, sep) ==> pieces(a, sep) == seq![a],
        pieces(a + seq![sep] + b, sep) == pieces(a, sep) + pieces(b, sep),
    decreases a.len() + b.len(),
{
    if a.len() > 0 && without(a, sep) {
        a_text_splits_at_separators(a.drop_last(), sep, Seq::empty());
        let p = pieces(a.drop_last(), sep);
        assert(without(a.drop_last(), sep));
        assert(a.last() != sep);
        assert(p.last().push(a.last()) =~= a);
        assert(pieces(a, sep) =~= seq![a]);
    }
    if a.len() == 0 {
        assert(a =~= Seq::empty());
        assert(pieces(a, sep) =~= seq![a]);
    }
    let all = a + seq![sep] + b;
    some_piece(b, sep);
    if b.len() == 0 {
        assert(all.drop_last() =~= a);
        assert(pieces(all, sep) =~= pieces(a, sep) + pieces(b, sep));
    } else {
        let c = b.drop_last();
        a_text_splits_at_separators(a, sep, c);
        some_piece(c, sep);
        assert(all.drop_last() =~= a + seq![sep] + c);
        let p = pieces(a, sep) + pieces(c, sep);
        assert(p.last() == pieces(c, sep).last());
        assert(p.drop_last() =~= pieces(a, sep) + pieces(c, sep).drop_last());
        assert(pieces(all, sep) =~= pieces(a, sep) + pieces(b, sep));
    }
}

proof fn some_piece(s: Seq<char>, sep: char)
    ensures
        pieces(s, sep).len() > 0,
    decreases s.len(),
{
    if s.len() > 0 {
        some_piece(s.drop_last(), sep);
    }
}

/// Whether every character is white space.
pub open spec fn blank(s: Seq<char>) -> bool {
    forall|i: int| 0 <= i < s.len() ==> is_white(#[trigger] s[i])
}

/// Trimming takes away the white space around a text, and nothing of the text.
pub proof fn trimming_leaves_the_text(before: Seq<char>, t: Seq<char>, after: Seq<char>)
    requires
        blank(before),
        blank(after),
        t.len() > 0 ==> !is_white(t[0]) && !is_white(t.last()),
    ensures
        trimmed(before + t + after) == t,
    decreases before.len() + after.len(),
{
    let s = before + t + after;
    if before.len() > 0 {
        assert(s[0] == before[0]);
        assert(s.drop_first() =~= before.drop_first() + t + after);
        assert(blank(before.drop_first())) by {
            assert forall|i: int| 0 <= i < before.drop_first().len() implies is_white(
                #[trigger] before.drop_first()[i],
            ) by {
                assert(before.drop_first()[i] == before[i + 1]);
            }
        }
        trimming_leaves_the_text(before.drop_first(), t, after);
    } else if after.len() > 0 {
        if t.len() > 0 {
            assert(s[0] == t[0]);
            assert(s.last() == after.last());
            assert(is_white(after[after.len() - 1]));
            assert(s.drop_last() =~= before + t + after.drop_last());
            assert(blank(after.drop_last()));
            trimming_leaves_the_text(before, t, after.drop_last());
        } else {
            assert(s =~= after);
            assert(s[0] == after[0]);
            assert(s.drop_first() =~= before + t + after.drop_first());
            assert(blank(after.drop_first())) by {
                assert forall|i: int| 0 <= i < after.drop_first().len() implies is_white(
                    #[trigger] after.drop_first()[i],
                ) by {
                    assert(after.drop_first()[i] == after[i + 1]);
                }
            }
            trimming_leaves_the_text(before, t, after.drop_first());
        }
    } else {
        assert(s =~= t);
    }
}

/// What a character counts as a digit: its distance from `0`, or ten more than its
/// distance from `a` or `A`.
pub open spec fn worth(c: char) -> int {
    if '0' <= c <= '9' {
        c as int - '0' as int
    } else if 'a' <= c <= 'f' {
        c as int - 'a' as int + 10
    } else if 'A' <= c <= 'F' {
        c as int - 'A' as int + 10
    } else {
        99
    }
}

/// Whether the text is a number in this base.
pub open spec fn is_number(s: Seq<char>, base: int) -> bool {
    s.len() > 0 && forall|i: int| 0 <= i < s.len() ==> worth(#[trigger] s[i]) < base
}

/// The number that the text is, its first digit the highest.
pub open spec fn number(s: Seq<char>, base: int) -> int
    decreases s.len(),
{
    if s.len() == 0 {
        0
    } else {
        number(s.drop_last(), base) * base + worth(s.last())
    }
}

proof fn digits_are_worth(c: char)
    ensures
        worth(c) < 16 ==> digit(c) == Some(worth(c)),
        worth(c) >= 16 ==> digit(c) is None,
{
}

proof fn numbers_agree(s: Seq<char>, base: nat)
    requires
        forall|i: int| 0 <= i < s.len() ==> worth(#[trigger] s[i]) < base,
        base <= 16,
    ensures
        digits_value(s, base) == number(s, base as int),
        number(s, base as int) >= 0,
    decreases s.len(),
{
    if s.len() > 0 {
        let t = s.drop_last();
        assert forall|i: int| 0 <= i < t.len() implies worth(#[trigger] t[i]) < base by {
            assert(t[i] == s[i]);
        }
        numbers_agree(t, base);
        assert(worth(s[s.len() - 1]) < base);
        assert(digit(s.last()) == Some(worth(s.last())));
        assert(number(t, base as int) * base >= 0) by (nonlinear_arith)
            requires
                number(t, base as int) >= 0,
                base >= 0,
        ;
    }
}

proof fn numbers_are_read(s: Seq<char>, base: nat, max: nat)
    requires
        base == 10 || base == 16,
    ensures
        bounded_number(s, base, max) == (if is_number(s, base as int) && number(s, base as int)
            <= max {
            Some(number(s, base as int) as nat)
        } else {
            None
        }),
{
    if is_number(s, base as int) {
        numbers_agree(s, base);
        assert forall|i: int| 0 <= i < s.len() implies (digit(#[trigger] s[i]) matches Some(d) && d
            < base) by {
            assert(worth(s[i]) < base);
        }
    } else if s.len() > 0 {
        let i = choose|i: int| 0 <= i < s.len() && !(worth(#[trigger] s[i]) < base as int);
        assert(0 <= i < s.len() && worth(s[i]) >= base);
        digits_are_worth(s[i]);
        if crate::ip::all_digits(s, base as int) {
            assert(digit(s[i]) matches Some(d) && d < base);
        }
    }
}

/// A number in the environment is decimal, with or without a plus sign, and no higher
/// than the highest there is.
pub proof fn unsigned_numbers_are_decimal(s: Seq<char>, max: nat)
    ensures
        is_number(s, 10) && number(s, 10) <= max ==> (unsigned(s, max) matches Some(n) && n == number(
            s,
            10,
        )),
        is_number(s, 10) && number(s, 10) > max ==> unsigned(s, max) is None,
        is_number(s, 10) ==> unsigned(seq!['+'] + s, max) == unsigned(s, max),
        !is_number(s, 10) && (s.len() == 0 || s[0] != '+') ==> unsigned(s, max) is None,
{
    numbers_are_read(s, 10, max);
    if is_number(s, 10) {
        numbers_agree(s, 10);
        assert(worth(s[0]) < 10);
    }
    assert((seq!['+'] + s).drop_first() =~= s);
    if s.len() > 0 && s[0] == '+' {
        assert(worth(s[0]) == 99);
    }
}

/// Whether the text is a number from 0 to 255 with no zero in front.
pub open spec fn is_octet(s: Seq<char>) -> bool {
    is_number(s, 10) && number(s, 10) <= 255 && (s.len() > 1 ==> s[0] != '0')
}

proof fn octets_are_read(s: Seq<char>)
    ensures
        crate::ip::octet(s) == (if is_octet(s) {
            Some(number(s, 10) as nat)
        } else {
            None
        }),
        is_octet(s) ==> without(s, '.'),
{
    numbers_are_read(s, 10, 255);
    if is_octet(s) {
        assert forall|i: int| 0 <= i < s.len() implies #[trigger] s[i] != '.' by {
            assert(worth(s[i]) < 10);
        }
    }
}

/// Four numbers with dots between are an address of four bytes, the first number first,
/// where each is from 0 to 255 and has no zero in front; and no other text of three dots
/// is.
pub proof fn four_numbers_are_an_address(
    a: Seq<char>,
    b: Seq<char>,
    c: Seq<char>,
    d: Seq<char>,
)
    requires
        without(a, '.') && without(b, '.') && without(c, '.') && without(d, '.'),
    ensures
        ({
            let s = a + seq!['.'] + (b + seq!['.'] + (c + seq!['.'] + d));
            let fine = is_octet(a) && is_octet(b) && is_octet(c) && is_octet(d);
            &&& fine ==> {
                &&& v4_bytes(s) matches Some(x) && x.len() == 4 && x[0] == number(a, 10) && x[1]
                    == number(b, 10) && x[2] == number(c, 10) && x[3] == number(d, 10)
                &&& ip_of(s) == Some(IpModel::V4(v4_bytes(s)->Some_0))
            }
            &&& !fine ==> v4_bytes(s) is None
        }),
{
    a_text_splits_at_separators(c, '.', d);
    a_text_splits_at_separators(b, '.', c + seq!['.'] + d);
    a_text_splits_at_separators(a, '.', b + seq!['.'] + (c + seq!['.'] + d));
    a_text_splits_at_separators(d, '.', d);
    let s = a + seq!['.'] + (b + seq!['.'] + (c + seq!['.'] + d));
    assert(pieces(s, '.') =~= seq![a, b, c, d]);
    octets_are_read(a);
    octets_are_read(b);
    octets_are_read(c);
    octets_are_read(d);
    if is_octet(a) {
        numbers_agree(a, 10);
    }
    if is_octet(b) {
        numbers_agree(b, 10);
    }
    if is_octet(c) {
        numbers_agree(c, 10);
    }
    if is_octet(d) {
        numbers_agree(d, 10);
    }
}

/// Whether the text is a word of an address of sixteen bytes: one to four digits in base
/// sixteen.
pub open spec fn is_group(s: Seq<char>) -> bool {
    is_number(s, 16) && s.len() <= 4
}

/// Whether each of the texts is such a word.
pub open spec fn are_groups(g: Seq<Seq<char>>) -> bool {
    forall|i: int| 0 <= i < g.len() ==> is_group(#[trigger] g[i])
}

proof fn group_fits(s: Seq<char>)
    requires
        is_group(s),
    ensures
        hex_word(s) == Some(number(s, 16) as nat),
        0 <= number(s, 16) <= 0xffff,
{
    numbers_agree(s, 16);
    numbers_are_read(s, 16, 0xffff);
    reveal_with_fuel(number, 5);
    let t = s.drop_last();
    let u = t.drop_last();
    let v = u.drop_last();
    assert(worth(s[s.len() - 1]) < 16);
    if s.len() > 1 {
        assert(t.last() == s[s.len() - 2]);
        assert(worth(t.last()) < 16);
    }
    if s.len() > 2 {
        assert(u.last() == s[s.len() - 3]);
        assert(worth(u.last()) < 16);
    }
    if s.len() > 3 {
        assert(v.last() == s[s.len() - 4]);
        assert(worth(v.last()) < 16);
    }
}

proof fn groups_are_read(g: Seq<Seq<char>>, i: int)
    requires
        are_groups(g),
    ensures
        words_bytes(g) is Some,
        words_bytes(g)->Some_0.len() == 2 * g.len(),
        0 <= i < g.len() ==> words_bytes(g)->Some_0[2 * i] == number(g[i], 16) / 256
            && words_bytes(g)->Some_0[2 * i + 1] == number(g[i], 16) % 256,
    decreases g.len(),
{
    if g.len() > 0 {
        let t = g.drop_last();
        assert forall|k: int| 0 <= k < t.len() implies is_group(#[trigger] t[k]) by {
            assert(t[k] == g[k]);
        }
        groups_are_read(t, i);
        assert(is_group(g[g.len() - 1]));
        group_fits(g.last());
    }
}

proof fn groups_have_no_dot(s: Seq<char>)
    requires
        is_group(s),
    ensures
        v4_bytes(s) is None,
        without(s, ':'),
{
    assert forall|i: int| 0 <= i < s.len() implies #[trigger] s[i] != '.' && s[i] != ':' by {
        assert(worth(s[i]) < 16);
    }
    a_text_splits_at_separators(s, '.', s);
}

proof fn a_gap_leaves_a_hole(s: Seq<char>, i: int)
    requires
        gap_at(s, i),
    ensures
        exists|k: int| 0 <= k < pieces(s, ':').len() && #[trigger] pieces(s, ':')[k].len() == 0,
{
    let x = s.take(i);
    let y = s.skip(i + 2);
    let e = Seq::<char>::empty();
    assert(s =~= x + seq![':'] + (e + seq![':'] + y));
    a_text_splits_at_separators(x, ':', e + seq![':'] + y);
    a_text_splits_at_separators(e, ':', y);
    assert(pieces(e, ':') =~= seq![e]);
    some_piece(x, ':');
    let p = pieces(x, ':');
    assert(pieces(s, ':')[p.len() as int] == e);
}

/// Eight words in base sixteen with colons between are an address of sixteen bytes, two
/// to each word, the high one first.
pub proof fn eight_words_are_an_address(s: Seq<char>, i: int)
    requires
        pieces(s, ':').len() == 8,
        are_groups(pieces(s, ':')),
        v4_bytes(s) is None,
        0 <= i < 8,
    ensures
        v6_bytes(s) matches Some(b) && b.len() == 16 && b[2 * i] == number(pieces(s, ':')[i], 16) / 256
            && b[2 * i + 1] == number(pieces(s, ':')[i], 16) % 256 && ip_of(s) == Some(
            IpModel::V6(b),
        ),
{
    let p = pieces(s, ':');
    if exists|j: int| first_gap(s, j) {
        let j = choose|j: int| first_gap(s, j);
        a_gap_leaves_a_hole(s, j);
        let k = choose|k: int| 0 <= k < p.len() && #[trigger] p[k].len() == 0;
        assert(is_group(p[k]));
    }
    if s.len() == 0 {
        assert(p =~= seq![Seq::<char>::empty()]);
    }
    assert(is_group(p[7]));
    groups_have_no_dot(p.last());
    groups_are_read(p, i);
}

/// An address of sixteen bytes may leave out words of zero once: those before a double
/// colon come first, those behind it last, and there are zeros between.
pub proof fn a_double_colon_stands_for_zeros(x: Seq<char>, y: Seq<char>, i: int, j: int, k: int)
    requires
        x.len() > 0 && y.len() > 0,
        are_groups(pieces(x, ':')),
        are_groups(pieces(y, ':')),
        pieces(x, ':').len() + pieces(y, ':').len() <= 7,
        0 <= i < pieces(x, ':').len(),
        0 <= j < pieces(y, ':').len(),
        2 * pieces(x, ':').len() <= k < 16 - 2 * pieces(y, ':').len(),
    ensures
        ({
            let g = pieces(x, ':');
            let h = pieces(y, ':');
            let r = v6_bytes(x + seq![':', ':'] + y);
            let from = 16 - 2 * h.len();
            &&& r matches Some(b) && {
                &&& b.len() == 16
                &&& b[2 * i] == number(g[i], 16) / 256
                &&& b[2 * i + 1] == number(g[i], 16) % 256
                &&& b[from + 2 * j] == number(h[j], 16) / 256
                &&& b[from + 2 * j + 1] == number(h[j], 16) % 256
                &&& b[k] == 0
            }
        }),
{
    let g = pieces(x, ':');
    let h = pieces(y, ':');
    let s = x + seq![':', ':'] + y;
    let n = x.len() as int;
    assert(gap_at(s, n));
    assert forall|q: int| 0 <= q < n implies !#[trigger] gap_at(s, q) by {
        if gap_at(s, q) {
            if q + 1 < n {
                assert(gap_at(x, q));
                a_gap_leaves_a_hole(x, q);
                let w = choose|w: int| 0 <= w < g.len() && #[trigger] g[w].len() == 0;
                assert(is_group(g[w]));
            } else {
                let z = x.drop_last();
                let e = Seq::<char>::empty();
                assert(x =~= z + seq![':'] + e);
                a_text_splits_at_separators(z, ':', e);
                assert(pieces(e, ':') =~= seq![e]);
                some_piece(z, ':');
                assert(g.last() == e);
                assert(is_group(g[g.len() - 1]));
            }
        }
    }
    assert(first_gap(s, n));
    let at = choose|q: int| first_gap(s, q);
    assert(first_gap(s, at));
    assert(at == n) by {
        if at < n {
            assert(!gap_at(s, at));
        }
        if n < at {
            assert(!gap_at(s, n));
        }
    }
    assert(s.take(n) =~= x);
    assert(s.skip(n + 2) =~= y);
    assert(is_group(h[h.len() - 1]));
    groups_have_no_dot(h.last());
    groups_are_read(g, i);
    groups_are_read(h, j);
}

/// What the environment says of the resolver, from the first variable to the last: each
/// list of addresses adds to those that are never given, each number replaces the one
/// before, and no other variable counts. A time that is no number changes nothing.
pub proof fn the_environment_is_heeded(
    c: ConfigModel,
    key: Seq<char>,
    value: Seq<char>,
    s: ResolverModel,
)
    ensures
        ({
            let r = configured(c, key, value);
            let deny = key == "EDGE_RESOLVER_DENY"@;
            let ttl = key == "EDGE_RESOLVER_CACHE_TTL_MS"@;
            let timeout = key == "EDGE_RESOLVER_TIMEOUT_MS"@;
            let n = unsigned(value, u64::MAX as nat);
            &&& deny ==> r.denylist == c.denylist + listed_ips(pieces(value, ','))
            &&& !deny ==> r.denylist == c.denylist
            &&& ttl && n is Some ==> r.ttl_ms == n->Some_0
            &&& !ttl || n is None ==> r.ttl_ms == c.ttl_ms
            &&& timeout && n is Some ==> r.timeout_ms == n->Some_0
            &&& !timeout || n is None ==> r.timeout_ms == c.timeout_ms
        }),
        config_of(Seq::empty()).denylist.len() == 0,
        config_of(Seq::empty()).ttl_ms == 60_000,
        config_of(Seq::empty()).timeout_ms == 5_000,
        ({
            let t = reconfigured(s, c);
            t.cache == s.cache && t.denylist == c.denylist && t.ttl_ms == c.ttl_ms && t.timeout_ms
                == c.timeout_ms
        }),
{
    keys_differ();
    crate::bytes::pow256_values();
    unsigned_is_bounded(value);
}

proof fn unsigned_is_bounded(s: Seq<char>)
    ensures
        unsigned(s, u64::MAX as nat) matches Some(n) ==> n <= u64::MAX,
{
}

proof fn keys_differ()
    ensures
        "EDGE_RESOLVER_DENY"@ != "EDGE_RESOLVER_CACHE_TTL_MS"@,
        "EDGE_RESOLVER_DENY"@ != "EDGE_RESOLVER_TIMEOUT_MS"@,
        "EDGE_RESOLVER_CACHE_TTL_MS"@ != "EDGE_RESOLVER_TIMEOUT_MS"@,
{
    reveal_strlit("EDGE_RESOLVER_DENY");
    reveal_strlit("EDGE_RESOLVER_CACHE_TTL_MS");
    reveal_strlit("EDGE_RESOLVER_TIMEOUT_MS");
    assert("EDGE_RESOLVER_DENY"@.len() == 18);
    assert("EDGE_RESOLVER_CACHE_TTL_MS"@.len() == 26);
    assert("EDGE_RESOLVER_TIMEOUT_MS"@.len() == 24);
}

/// Each part of a list of addresses that is one, white space around it aside, is listed,
/// in order; what is none is left out.
pub proof fn listed_addresses_keep_their_order(p: Seq<Seq<char>>, t: Seq<char>)
    ensures
        listed_ips(Seq::empty()) == Seq::<IpModel>::empty(),
        listed_ips(p.push(t)) == (match ip_of(trimmed(t)) {
            Some(a) => listed_ips(p).push(a),
            None => listed_ips(p),
        }),
{
    assert(p.push(t).drop_last() =~= p);
}

} // verus!
