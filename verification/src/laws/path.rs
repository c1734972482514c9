//! The text of a path, and the way that it leads.

use vstd::prelude::*;
use crate::path::after_cut;
use crate::path::cut;
use crate::path::cut_bound;
use crate::path::is_absolute;
use crate::path::is_name;
use crate::path::is_under;
use crate::path::joined;
use crate::path::path_text;
use crate::path::steps;
use crate::path::walk;

verus! {

/// Whether no separator occurs in `s`.
pub open spec fn unbroken(s: Seq<u8>) -> bool {
    forall|i: int| 0 <= i < s.len() ==> #[trigger] s[i] != 0x2f
}

proof fn cut_at(s: Seq<u8>, n: int)
    requires
        0 <= n <= s.len(),
        forall|i: int| 0 <= i < n ==> #[trigger] s[i] != 0x2f,
        n < s.len() ==> s[n] == 0x2f,
    ensures
        cut(s) == n,
{
    cut_bound(s);
    let c = cut(s) as int;
    if c < n {
        assert(s[c] != 0x2f);
    }
    if n < c {
        assert(s[n] != 0x2f);
    }
}

/// A path falls into steps at its separators. A piece without a separator is a step, but
/// for an empty one and a single dot, and the steps of two paths with a separator between
/// are those of the first and then those of the second.
pub proof fn a_path_splits_at_separators(a: Seq<u8>, b: Seq<u8>)
    ensures
        unbroken(a) ==> steps(a) == (if a.len() == 0 || a == seq![0x2eu8] {
            Seq::empty()
        } else {
            seq![a]
        }),
        steps(a + seq![0x2fu8] + b) == steps(a) + steps(b),
    decreases a.len(),
{
    let s = a + seq![0x2fu8] + b;
    if unbroken(a) {
        cut_at(a, a.len() as int);
        cut_at(s, a.len() as int);
        assert(a.take(a.len() as int) =~= a);
        assert(s.take(a.len() as int) =~= a);
        assert(s.skip(a.len() as int + 1) =~= b);
        assert(steps(Seq::<u8>::empty()) =~= Seq::empty());
        if a.len() == 1 && a[0] == 0x2e {
            assert(a =~= seq![0x2eu8]);
        }
        assert(steps(a) =~= (if a.len() == 0 || a == seq![0x2eu8] {
            Seq::empty()
        } else {
            seq![a]
        }));
        assert(steps(s) =~= steps(a) + steps(b));
    } else {
        cut_bound(a);
        let n = cut(a) as int;
        assert(n < a.len()) by {
            let i = choose|i: int| 0 <= i < a.len() && #[trigger] a[i] == 0x2f;
            assert(a[i] == 0x2f);
        }
        assert forall|i: int| 0 <= i < n implies #[trigger] s[i] != 0x2f by {
            assert(s[i] == a[i]);
        }
        assert(s[n] == a[n]);
        cut_at(s, n);
        let rest = after_cut(a);
        assert(after_cut(s) =~= rest + seq![0x2fu8] + b);
        assert(s.take(n) =~= a.take(n));
        a_path_splits_at_separators(rest, b);
        assert(steps(s) =~= steps(a) + steps(b));
    }
}

/// A way is walked step by step: two dots lead back, which there is no way to do at the
/// top, and any other name leads down.
pub proof fn a_way_is_walked_step_by_step(at: Seq<Seq<u8>>, x: Seq<u8>, c: Seq<Seq<u8>>)
    ensures
        walk(at, Seq::empty()) == Some(at),
        x == seq![0x2eu8, 0x2eu8] && at.len() == 0 ==> walk(at, seq![x] + c) is None,
        x == seq![0x2eu8, 0x2eu8] && at.len() > 0 ==> walk(at, seq![x] + c) == walk(
            at.drop_last(),
            c,
        ),
        x != seq![0x2eu8, 0x2eu8] ==> walk(at, seq![x] + c) == walk(at.push(x), c),
{
    assert((seq![x] + c).drop_first() =~= c);
    if x.len() == 2 && x[0] == 0x2e && x[1] == 0x2e {
        assert(x =~= seq![0x2eu8, 0x2eu8]);
    }
}

/// The text of a path has a separator before each name, and is a single one at the top.
pub proof fn a_path_has_a_text(p: Seq<Seq<u8>>, x: Seq<u8>)
    ensures
        path_text(Seq::empty()) == seq![0x2fu8],
        path_text(seq![x]) == seq![0x2fu8] + x,
        p.len() > 0 ==> path_text(p.push(x)) == path_text(p) + seq![0x2fu8] + x,
        is_absolute(path_text(p.push(x))),
    decreases p.len(),
{
    reveal_with_fuel(joined, 2);
    assert(seq![x].drop_last() =~= Seq::empty());
    assert(path_text(seq![x]) =~= seq![0x2fu8] + x);
    assert(p.push(x).drop_last() =~= p);
    if p.len() == 0 {
        assert(p.push(x) =~= seq![x]);
    } else {
        a_path_has_a_text(p.drop_last(), p.last());
        assert(p.drop_last().push(p.last()) =~= p);
    }
}

/// What a name can be: anything but nothing, a dot, two dots, and what holds a separator.
/// A path is absolute where it starts with a separator. One lies below another where it
/// starts with all of its names.
pub proof fn names_and_places(s: Seq<u8>, p: Seq<Seq<u8>>, q: Seq<Seq<u8>>)
    ensures
        is_name(s) <==> s.len() > 0 && s != seq![0x2eu8] && s != seq![0x2eu8, 0x2eu8] && unbroken(s),
        is_absolute(seq![0x2fu8] + s),
        s.len() == 0 || s[0] != 0x2f ==> !is_absolute(s),
        is_under(p + q, p),
        p.len() < q.len() ==> !is_under(p, q),
        p.len() == q.len() ==> (is_under(p, q) <==> p == q),
{
    if s.len() == 1 && s[0] == 0x2e {
        assert(s =~= seq![0x2eu8]);
    }
    if s.len() == 2 && s[0] == 0x2e && s[1] == 0x2e {
        assert(s =~= seq![0x2eu8, 0x2eu8]);
    }
    if !unbroken(s) {
        let i = choose|i: int| 0 <= i < s.len() && #[trigger] s[i] == 0x2f;
        assert(s.contains(0x2f));
    }
    if p.len() == q.len() && is_under(p, q) {
        assert(p =~= q);
    }
}

} // verus!
