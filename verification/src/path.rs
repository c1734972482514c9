//! Absolute guest paths as sequences of names.

use vstd::prelude::*;
use vstd::slice::slice_subrange;
use vstd::slice::slice_to_vec;
use crate::bytes::push_bytes;

verus! {

/// The byte that separates the names of a path.
pub const SLASH: u8 = 0x2f;

/// The byte that `.` and `..` are made of.
pub const DOT: u8 = 0x2e;

/// An absolute path: the names on the way from the top directory.
pub struct GuestPath {
    pub parts: Vec<Vec<u8>>,
}

impl View for GuestPath {
    type V = Seq<Seq<u8>>;

    open spec fn view(&self) -> Seq<Seq<u8>> {
        Seq::new(self.parts@.len(), |i: int| self.parts@[i]@)
    }
}

pub open spec fn is_dot(s: Seq<u8>) -> bool {
    s.len() == 1 && s[0] == DOT
}

pub open spec fn is_dotdot(s: Seq<u8>) -> bool {
    s.len() == 2 && s[0] == DOT && s[1] == DOT
}

/// Whether `s` can name an entry of a directory: it is neither empty, nor `.` or
/// `..`, and holds no separator.
pub open spec fn is_name(s: Seq<u8>) -> bool {
    &&& s.len() > 0
    &&& !is_dot(s)
    &&& !is_dotdot(s)
    &&& !s.contains(SLASH)
}

/// Whether every element is a proper name.
pub open spec fn all_names(p: Seq<Seq<u8>>) -> bool {
    forall|i: int| 0 <= i < p.len() ==> is_name(#[trigger] p[i])
}

/// The position of the first separator in `s`, or its length.
pub open spec fn cut(s: Seq<u8>) -> nat
    decreases s.len(),
{
    if s.len() == 0 || s[0] == SLASH {
        0
    } else {
        1 + cut(s.drop_first())
    }
}

/// What follows the first separator of `s`.
pub open spec fn after_cut(s: Seq<u8>) -> Seq<u8> {
    if cut(s) < s.len() {
        s.skip(cut(s) as int + 1)
    } else {
        Seq::empty()
    }
}

/// The steps that the text `s` spells: the pieces between separators, without the
/// empty ones and without `.`.
pub open spec fn steps(s: Seq<u8>) -> Seq<Seq<u8>>
    decreases s.len(),
{
    if s.len() == 0 {
        Seq::empty()
    } else {
        let head = s.take(cut(s) as int);
        (if head.len() == 0 || is_dot(head) {
            Seq::empty()
        } else {
            seq![head]
        }) + steps(after_cut(s))
    }
}

/// Take the steps `c` from the directory `at`: `..` leads one directory up, any
/// other step one down. There is no way up from the top directory.
pub open spec fn walk(at: Seq<Seq<u8>>, c: Seq<Seq<u8>>) -> Option<Seq<Seq<u8>>>
    decreases c.len(),
{
    if c.len() == 0 {
        Some(at)
    } else if is_dotdot(c[0]) {
        if at.len() == 0 {
            None
        } else {
            walk(at.drop_last(), c.drop_first())
        }
    } else {
        walk(at.push(c[0]), c.drop_first())
    }
}

/// Whether the text spells an absolute path.
pub open spec fn is_absolute(s: Seq<u8>) -> bool {
    s.len() > 0 && s[0] == SLASH
}

/// Whether `p` is `dir` or lies below it.
pub open spec fn is_under(p: Seq<Seq<u8>>, dir: Seq<Seq<u8>>) -> bool {
    dir.is_prefix_of(p)
}

/// Each name of `p` with a separator before it.
pub open spec fn joined(p: Seq<Seq<u8>>) -> Seq<u8>
    decreases p.len(),
{
    if p.len() == 0 {
        Seq::empty()
    } else {
        joined(p.drop_last()) + seq![SLASH] + p.last()
    }
}

/// The text of an absolute path.
pub open spec fn path_text(p: Seq<Seq<u8>>) -> Seq<u8> {
    if p.len() == 0 {
        seq![SLASH]
    } else {
        joined(p)
    }
}

pub proof fn cut_bound(s: Seq<u8>)
    ensures
        cut(s) <= s.len(),
        forall|i: int| 0 <= i < cut(s) ==> s[i] != SLASH,
        cut(s) < s.len() ==> s[cut(s) as int] == SLASH,
    decreases s.len(),
{
    if s.len() == 0 || s[0] == SLASH {
    } else {
        let t = s.drop_first();
        cut_bound(t);
        assert forall|i: int| 0 <= i < cut(s) implies s[i] != SLASH by {
            if i > 0 {
                assert(s[i] == t[i - 1]);
            }
        }
        if cut(s) < s.len() {
            assert(s[cut(s) as int] == t[cut(t) as int]);
        }
    }
}

proof fn cut_is(s: Seq<u8>, n: nat)
    requires
        n <= s.len(),
        forall|i: int| 0 <= i < n ==> s[i] != SLASH,
        n < s.len() ==> s[n as int] == SLASH,
    ensures
        cut(s) == n,
{
    cut_bound(s);
    if cut(s) < n {
        assert(s[cut(s) as int] == SLASH);
    } else if n < cut(s) {
        assert(s[n as int] != SLASH);
    }
}

/// A step is a name or `..`.
pub open spec fn is_step(s: Seq<u8>) -> bool {
    is_name(s) || is_dotdot(s)
}

/// The pieces of a text are names or `..`.
pub proof fn steps_are_steps(s: Seq<u8>)
    ensures
        forall|i: int| 0 <= i < steps(s).len() ==> is_step(#[trigger] steps(s)[i]),
    decreases s.len(),
{
    if s.len() > 0 {
        cut_bound(s);
        steps_are_steps(after_cut(s));
        let head = s.take(cut(s) as int);
        let first: Seq<Seq<u8>> = if head.len() == 0 || is_dot(head) {
            Seq::empty()
        } else {
            seq![head]
        };
        assert forall|i: int| 0 <= i < steps(s).len() implies is_step(#[trigger] steps(s)[i]) by {
            if i < first.len() {
                assert(steps(s)[i] == head);
                assert(!head.contains(SLASH)) by {
                    if head.contains(SLASH) {
                        let j = head.index_of(SLASH);
                        assert(s[j] == SLASH);
                    }
                }
            } else {
                assert(steps(s)[i] == steps(after_cut(s))[i - first.len()]);
            }
        }
    }
}

/// A walk that starts among names and takes steps ends among names.
pub proof fn walk_stays_among_names(at: Seq<Seq<u8>>, c: Seq<Seq<u8>>)
    requires
        all_names(at),
        forall|i: int| 0 <= i < c.len() ==> is_step(#[trigger] c[i]),
    ensures
        walk(at, c) matches Some(p) ==> all_names(p),
    decreases c.len(),
{
    if c.len() > 0 {
        let rest = c.drop_first();
        assert forall|i: int| 0 <= i < rest.len() implies is_step(#[trigger] rest[i]) by {
            assert(rest[i] == c[i + 1]);
        }
        assert(is_step(c[0]));
        if is_dotdot(c[0]) {
            if at.len() > 0 {
                walk_stays_among_names(at.drop_last(), rest);
            }
        } else {
            let to = at.push(c[0]);
            assert forall|i: int| 0 <= i < to.len() implies is_name(#[trigger] to[i]) by {
                if i < at.len() {
                    assert(to[i] == at[i]);
                }
            }
            walk_stays_among_names(to, rest);
        }
    }
}

/// Taking names only leads straight down.
pub proof fn walk_of_names(at: Seq<Seq<u8>>, c: Seq<Seq<u8>>)
    requires
        all_names(c),
    ensures
        walk(at, c) == Some(at + c),
    decreases c.len(),
{
    if c.len() > 0 {
        let rest = c.drop_first();
        assert(is_name(c[0]));
        assert forall|i: int| 0 <= i < rest.len() implies is_name(#[trigger] rest[i]) by {
            assert(rest[i] == c[i + 1]);
        }
        walk_of_names(at.push(c[0]), rest);
        assert(at.push(c[0]) + rest =~= at + c);
    } else {
        assert(at + c =~= at);
    }
}

/// Walking along one piece and then along another is walking along both.
pub proof fn walk_in_parts(at: Seq<Seq<u8>>, c: Seq<Seq<u8>>, d: Seq<Seq<u8>>)
    ensures
        walk(at, c + d) == (match walk(at, c) {
            Some(p) => walk(p, d),
            None => None,
        }),
    decreases c.len(),
{
    if c.len() == 0 {
        assert(c + d =~= d);
    } else {
        assert((c + d)[0] == c[0]);
        assert((c + d).drop_first() =~= c.drop_first() + d);
        if is_dotdot(c[0]) {
            if at.len() > 0 {
                walk_in_parts(at.drop_last(), c.drop_first(), d);
            }
        } else {
            walk_in_parts(at.push(c[0]), c.drop_first(), d);
        }
    }
}

/// The text of a path spells the path.
pub proof fn steps_of_text(p: Seq<Seq<u8>>)
    requires
        all_names(p),
    ensures
        steps(path_text(p)) == p,
        is_absolute(path_text(p)),
{
    if p.len() == 0 {
        let s = seq![SLASH];
        assert(s.skip(1) =~= Seq::<u8>::empty());
        assert(s.take(0).len() == 0);
        assert(cut(s) == 0);
        assert(after_cut(s) =~= Seq::<u8>::empty());
        assert(steps(Seq::<u8>::empty()) =~= Seq::<Seq<u8>>::empty());
        assert(steps(s) =~= p);
    } else {
        joined_starts_with_slash(p);
        steps_of_joined(p, Seq::empty());
        assert(joined(p) + Seq::<u8>::empty() =~= joined(p));
        assert(p + steps(Seq::<u8>::empty()) =~= p);
    }
}

proof fn joined_starts_with_slash(p: Seq<Seq<u8>>)
    requires
        p.len() > 0,
    ensures
        joined(p).len() > 0,
        joined(p)[0] == SLASH,
    decreases p.len(),
{
    if p.len() > 1 {
        joined_starts_with_slash(p.drop_last());
        assert(joined(p)[0] == joined(p.drop_last())[0]);
    } else {
        assert(joined(p.drop_last()) =~= Seq::<u8>::empty());
    }
}

proof fn steps_of_joined(p: Seq<Seq<u8>>, tail: Seq<u8>)
    requires
        all_names(p),
        tail.len() == 0 || tail[0] == SLASH,
    ensures
        steps(joined(p) + tail) == p + steps(tail),
    decreases p.len(),
{
    if p.len() == 0 {
        assert(joined(p) + tail =~= tail);
        assert(p + steps(tail) =~= steps(tail));
    } else {
        let q = p.drop_last();
        let n = p.last();
        assert(is_name(n));
        let t = seq![SLASH] + n + tail;
        assert(joined(p) + tail =~= joined(q) + t);
        assert forall|i: int| 0 <= i < q.len() implies is_name(#[trigger] q[i]) by {
            assert(q[i] == p[i]);
        }
        steps_of_joined(q, t);
        // The separator at the front of `t` ends an empty piece.
        assert(cut(t) == 0);
        assert(after_cut(t) =~= n + tail);
        assert(t.take(0).len() == 0);
        assert(steps(t) =~= steps(n + tail));
        // Then comes the name, up to the next separator or the end.
        let u = n + tail;
        assert forall|i: int| 0 <= i < n.len() implies u[i] != SLASH by {
            assert(n.contains(n[i]));
        }
        cut_is(u, n.len());
        assert(u.take(n.len() as int) =~= n);
        if tail.len() > 0 {
            let rest = tail.drop_first();
            assert(after_cut(u) =~= rest);
            assert(cut(tail) == 0);
            assert(after_cut(tail) =~= rest);
            assert(tail.take(0).len() == 0);
            assert(steps(tail) =~= steps(rest));
        } else {
            assert(after_cut(u) =~= Seq::<u8>::empty());
            assert(steps(tail) =~= Seq::<Seq<u8>>::empty());
        }
        assert(steps(Seq::<u8>::empty()) =~= Seq::<Seq<u8>>::empty());
        assert(steps(after_cut(u)) =~= steps(tail));
        assert(u.len() > 0 && !is_dot(n));
        assert(steps(u) == seq![u.take(cut(u) as int)] + steps(after_cut(u)));
        assert(steps(u) =~= seq![n] + steps(tail));
        assert(q + (seq![n] + steps(tail)) =~= p + steps(tail));
    }
}

/// Whether two byte strings are equal.
pub fn same_bytes(a: &[u8], b: &[u8]) -> (r: bool)
    ensures
        r == (a@ == b@),
{
    if a.len() != b.len() {
        return false;
    }
    let n: usize = a.len();
    let mut i: usize = 0;
    while i < n
        invariant
            i <= n,
            n == a@.len(),
            n == b@.len(),
            forall|j: int| 0 <= j < i ==> a@[j] == b@[j],
        decreases n - i,
    {
        if a[i] != b[i] {
            return false;
        }
        i = i + 1;
    }
    assert(a@ =~= b@);
    true
}

/// A copy of a byte string.
pub fn copy_bytes(s: &Vec<u8>) -> (r: Vec<u8>)
    ensures
        r@ == s@,
{
    slice_to_vec(s.as_slice())
}

/// The steps that a text spells.
pub fn split_steps(s: &[u8]) -> (r: GuestPath)
    ensures
        r@ == steps(s@),
{
    let len: usize = s.len();
    let mut out: GuestPath = GuestPath { parts: Vec::new() };
    let mut i: usize = 0;
    assert(s@.skip(0) =~= s@);
    assert(out@ + steps(s@.skip(0)) =~= steps(s@));
    while i < len
        invariant
            i <= len,
            len == s@.len(),
            out@ + steps(s@.skip(i as int)) == steps(s@),
        decreases len - i,
    {
        let ghost rest = s@.skip(i as int);
        let ghost before = out@;
        let mut n: usize = 0;
        while i + n < len && s[i + n] != SLASH
            invariant
                i + n <= len,
                len == s@.len(),
                forall|j: int| i <= j < i + n ==> s@[j] != SLASH,
            ensures
                i + n <= len,
                forall|j: int| i <= j < i + n ==> s@[j] != SLASH,
                i + n == len || s@[i + n] == SLASH,
            decreases len - i - n,
        {
            n = n + 1;
        }
        proof {
            assert forall|j: int| 0 <= j < n implies rest[j] != SLASH by {
                assert(rest[j] == s@[i + j]);
            }
            cut_is(rest, n as nat);
            assert(rest.take(n as int) =~= s@.subrange(i as int, i + n));
        }
        let dot: bool = n == 1 && s[i] == DOT;
        if n > 0 && !dot {
            let name: Vec<u8> = slice_to_vec(slice_subrange(s, i, i + n));
            out.parts.push(name);
            assert(out@ =~= before.push(rest.take(n as int)));
        }
        if i + n < len {
            i = i + n + 1;
            assert(after_cut(rest) =~= s@.skip(i as int));
        } else {
            i = len;
            assert(after_cut(rest) =~= s@.skip(i as int));
        }
        assert(out@ + steps(s@.skip(i as int)) =~= before + steps(rest));
    }
    assert(s@.skip(len as int) =~= Seq::<u8>::empty());
    assert(out@ + steps(s@.skip(len as int)) =~= out@);
    out
}

impl GuestPath {
    /// A copy of the path.
    pub fn copy(&self) -> (r: GuestPath)
        ensures
            r@ == self@,
    {
        let mut out: GuestPath = GuestPath { parts: Vec::new() };
        out.append(self);
        assert(Seq::<Seq<u8>>::empty() + self@ =~= self@);
        out
    }

    /// Add the names of `other` behind those of `self`.
    pub fn append(&mut self, other: &GuestPath)
        ensures
            final(self)@ == old(self)@ + other@,
    {
        let n: usize = other.parts.len();
        let mut i: usize = 0;
        assert(self@ =~= old(self)@ + other@.take(0));
        while i < n
            invariant
                i <= n,
                n == other.parts@.len(),
                self@ == old(self)@ + other@.take(i as int),
            decreases n - i,
        {
            let ghost before = self@;
            self.parts.push(copy_bytes(&other.parts[i]));
            assert(self@ =~= before.push(other@[i as int]));
            i = i + 1;
            assert(self@ =~= old(self)@ + other@.take(i as int));
        }
        assert(other@.take(n as int) =~= other@);
    }

    /// Whether the path is `dir` or lies below it.
    pub fn starts_with(&self, dir: &GuestPath) -> (r: bool)
        ensures
            r == is_under(self@, dir@),
    {
        let n: usize = dir.parts.len();
        if n > self.parts.len() {
            return false;
        }
        let mut i: usize = 0;
        while i < n
            invariant
                i <= n,
                n == dir.parts@.len(),
                n <= self.parts@.len(),
                forall|j: int| 0 <= j < i ==> self@[j] == dir@[j],
            decreases n - i,
        {
            if !same_bytes(self.parts[i].as_slice(), dir.parts[i].as_slice()) {
                assert(self@[i as int] != dir@[i as int]);
                return false;
            }
            i = i + 1;
        }
        assert(dir@ =~= self@.take(n as int));
        true
    }

    /// Whether both are the same path.
    pub fn same(&self, other: &GuestPath) -> (r: bool)
        ensures
            r == (self@ == other@),
    {
        let r: bool = self.parts.len() == other.parts.len() && self.starts_with(other);
        proof {
            if self@.len() == other@.len() && is_under(self@, other@) {
                assert(self@ =~= other@);
            }
        }
        r
    }

    /// Walk from the top directory along `self`, taken as steps.
    pub fn collapse(&self) -> (r: Option<GuestPath>)
        ensures
            match r {
                Some(p) => walk(Seq::empty(), self@) == Some(p@),
                None => walk(Seq::empty(), self@) is None,
            },
    {
        let n: usize = self.parts.len();
        let mut at: GuestPath = GuestPath { parts: Vec::new() };
        let mut i: usize = 0;
        assert(at@ =~= Seq::empty());
        assert(self@.skip(0) =~= self@);
        while i < n
            invariant
                i <= n,
                n == self.parts@.len(),
                walk(at@, self@.skip(i as int)) == walk(Seq::empty(), self@),
            decreases n - i,
        {
            let step: &Vec<u8> = &self.parts[i];
            let ghost rest = self@.skip(i as int);
            let ghost before = at@;
            assert(rest[0] == step@);
            assert(rest.drop_first() =~= self@.skip(i + 1));
            let up: bool = step.len() == 2 && step[0] == DOT && step[1] == DOT;
            if up {
                if at.parts.len() == 0 {
                    return None;
                }
                let _ = at.parts.pop();
                assert(at@ =~= before.drop_last());
            } else {
                at.parts.push(copy_bytes(step));
                assert(at@ =~= before.push(step@));
            }
            i = i + 1;
        }
        assert(self@.skip(n as int) =~= Seq::empty());
        Some(at)
    }

    /// The text of the path.
    pub fn text(&self) -> (r: Vec<u8>)
        ensures
            r@ == path_text(self@),
    {
        let n: usize = self.parts.len();
        let mut out: Vec<u8> = Vec::new();
        if n == 0 {
            out.push(SLASH);
            assert(out@ =~= seq![SLASH]);
            return out;
        }
        let mut i: usize = 0;
        assert(self@.take(0) =~= Seq::empty());
        while i < n
            invariant
                i <= n,
                n == self.parts@.len(),
                out@ == joined(self@.take(i as int)),
            decreases n - i,
        {
            out.push(SLASH);
            push_bytes(&mut out, self.parts[i].as_slice());
            i = i + 1;
            assert(self@.take(i as int).drop_last() =~= self@.take(i - 1));
            assert(self@.take(i as int).last() == self@[i - 1]);
            assert(out@ =~= joined(self@.take(i as int)));
        }
        assert(self@.take(n as int) =~= self@);
        out
    }
}

} // verus!
