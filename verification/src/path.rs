//! Unix paths, as the bytes that write them.
//!
//! A path is read as its components: the pieces between slashes, where repeated slashes, a slash
//! at the end and pieces `.` behind the first count for nothing. Two paths are the same path when
//! their components agree; a path is under another when it starts with the other's components.

use vstd::prelude::*;
use vstd::slice::*;
use vstd::string::*;
use vstd::utf8::*;

verus! {

/// The byte that separates components.
pub const SLASH: u8 = 0x2f;

/// The byte `.`.
pub const DOT: u8 = 0x2e;

/// A Unix path. Any bytes are accepted.
pub struct FilePath {
    pub bytes: Vec<u8>,
}

impl View for FilePath {
    type V = Seq<u8>;

    open spec fn view(&self) -> Seq<u8> {
        self.bytes@
    }
}

/// The bytes of each path of `v`.
pub open spec fn path_views(v: Seq<FilePath>) -> Seq<Seq<u8>> {
    v.map_values(|p: FilePath| p@)
}

/// The bytes of the path in `p`, if there is one.
pub open spec fn opt_path_view(p: Option<FilePath>) -> Option<Seq<u8>> {
    match p {
        Some(p) => Some(p@),
        None => None,
    }
}

/// The bytes of the path that `p` refers to, if there is one.
pub open spec fn opt_path_ref_view(p: Option<&FilePath>) -> Option<Seq<u8>> {
    match p {
        Some(p) => Some(p@),
        None => None,
    }
}

/// The pieces of `p` between its slashes; one more than there are slashes.
pub open spec fn pieces(p: Seq<u8>) -> Seq<Seq<u8>>
    decreases p.len(),
{
    if p.len() == 0 {
        seq![Seq::empty()]
    } else {
        let before = pieces(p.drop_last());
        if p.last() == SLASH {
            before.push(Seq::empty())
        } else {
            before.update(before.len() - 1, before.last().push(p.last()))
        }
    }
}

/// Whether a piece behind a slash is a component: it is neither empty nor `.`.
pub open spec fn is_ordinary(piece: Seq<u8>) -> bool {
    piece.len() > 0 && piece != seq![DOT]
}

/// The first of `pieces`, and those behind it that are components.
pub open spec fn named_pieces(pieces: Seq<Seq<u8>>) -> Seq<Seq<u8>>
    decreases pieces.len(),
{
    if pieces.len() <= 1 {
        pieces
    } else if is_ordinary(pieces.last()) {
        named_pieces(pieces.drop_last()).push(pieces.last())
    } else {
        named_pieces(pieces.drop_last())
    }
}

/// The components of `p`. The root directory, which an absolute path starts with, is the empty
/// component; a `.` counts only as the first piece of a relative path.
pub open spec fn components(p: Seq<u8>) -> Seq<Seq<u8>> {
    if p.len() == 0 {
        Seq::empty()
    } else {
        named_pieces(pieces(p))
    }
}

/// Whether `p` and `q` are the same path.
pub open spec fn same_path(p: Seq<u8>, q: Seq<u8>) -> bool {
    components(p) == components(q)
}

/// Whether `p` is `base` or lies below it.
pub open spec fn is_under(p: Seq<u8>, base: Seq<u8>) -> bool {
    components(base).is_prefix_of(components(p))
}

/// Whether the first `n` bytes of `p` write the path above `p`: they have all components of `p`
/// but the last, and no shorter prefix has them.
pub open spec fn is_parent_len(p: Seq<u8>, n: int) -> bool {
    &&& 0 <= n <= p.len()
    &&& components(p.take(n)) == components(p).drop_last()
    &&& forall|m: int|
        0 <= m < n ==> components(#[trigger] p.take(m)) != components(p).drop_last()
}

/// The path above `p`. The empty path and the root directory have none.
pub open spec fn parent(p: Seq<u8>) -> Option<Seq<u8>> {
    if components(p).len() == 0 || components(p) == seq![Seq::<u8>::empty()] {
        None
    } else {
        Some(p.take(choose|n: int| is_parent_len(p, n)))
    }
}

/// `tail` read from `p`: below `p` where `tail` is relative, `tail` itself where it is absolute.
pub open spec fn joined(p: Seq<u8>, tail: Seq<u8>) -> Seq<u8> {
    if tail.len() > 0 && tail[0] == SLASH {
        tail
    } else if p.len() == 0 || p.last() == SLASH {
        p + tail
    } else {
        p.push(SLASH) + tail
    }
}

// How the components change as a path grows by one byte.
proof fn lemma_pieces_nonempty(p: Seq<u8>)
    ensures
        pieces(p).len() >= 1,
        pieces(p).len() == 1 ==> pieces(p) == seq![p],
    decreases p.len(),
{
    if p.len() == 0 {
        assert(p =~= Seq::empty());
    } else {
        lemma_pieces_nonempty(p.drop_last());
        if pieces(p).len() == 1 {
            assert(p.drop_last().push(p.last()) =~= p);
            assert(pieces(p) =~= seq![p]);
        }
    }
}

proof fn lemma_components_push(p: Seq<u8>, b: u8)
    ensures
        ({
            let last = pieces(p).last();
            let before = components(p);
            let after = components(p.push(b));
            if b == SLASH {
                after == (if p.len() == 0 {
                    seq![Seq::<u8>::empty()]
                } else {
                    before
                })
            } else if pieces(p).len() == 1 {
                &&& after == seq![p.push(b)]
                &&& p.len() > 0 ==> before == seq![p]
            } else if !is_ordinary(last.push(b)) {
                after == before
            } else if is_ordinary(last) {
                &&& before.len() > 0
                &&& before.last() == last
                &&& after == before.drop_last().push(last.push(b))
            } else {
                after == before.push(last.push(b))
            }
        }),
{
    let q = pieces(p);
    let grown = p.push(b);
    lemma_pieces_nonempty(p);
    assert(grown.drop_last() =~= p);
    if b == SLASH {
        assert(pieces(grown) == q.push(Seq::empty()));
        assert(pieces(grown).drop_last() =~= q);
        if p.len() == 0 {
            assert(p =~= Seq::empty());
            assert(named_pieces(q) == q);
        }
    } else if q.len() == 1 {
        assert(pieces(grown) =~= seq![grown]);
    } else {
        let r = q.update(q.len() - 1, q.last().push(b));
        assert(pieces(grown) == r);
        assert(r.drop_last() =~= q.drop_last());
        assert(r.last() == q.last().push(b));
        if is_ordinary(q.last()) {
            let body = named_pieces(q.drop_last());
            assert(named_pieces(q) == body.push(q.last()));
            assert(body.push(q.last()).drop_last() =~= body);
        }
        assert(p.len() > 0);
    }
}

/// The bytes of each component of `v`.
pub open spec fn part_views(v: Seq<Vec<u8>>) -> Seq<Seq<u8>> {
    v.map_values(|part: Vec<u8>| part@)
}

/// Whether `a` and `b` hold the same bytes.
fn same_bytes(a: &Vec<u8>, b: &Vec<u8>) -> (res: bool)
    ensures
        res == (a@ == b@),
{
    let res = *a == *b;
    proof {
        if res {
            assert(a@ =~= b@);
        }
    }
    res
}

impl Clone for FilePath {
    fn clone(&self) -> (res: Self)
        ensures
            res@ == self@,
    {
        let bytes = self.bytes.clone();
        assert(bytes@ =~= self.bytes@);
        FilePath { bytes }
    }
}

impl FilePath {
    /// The path that `text` writes.
    pub fn from_text(text: &str) -> (res: FilePath)
        ensures
            res@ == encode_utf8(text@),
    {
        FilePath { bytes: slice_to_vec(text.as_bytes()) }
    }

    /// The components of this path; the root directory is the empty component.
    pub fn components(&self) -> (res: Vec<Vec<u8>>)
        ensures
            part_views(res@) == components(self@),
    {
        let bytes = &self.bytes;
        let mut parts: Vec<Vec<u8>> = Vec::new();
        let mut current: Vec<u8> = Vec::new();
        let mut in_first: bool = true;
        let ghost mut done: Seq<Seq<u8>> = Seq::empty();
        if bytes.len() == 0 {
            assert(part_views(parts@) =~= components(self@));
            return parts;
        }
        let mut i: usize = 0;
        assert(pieces(bytes@.take(0)) =~= done.push(current@));
        while i < bytes.len()
            invariant
                i <= bytes.len(),
                pieces(bytes@.take(i as int)) == done.push(current@),
                in_first == (done.len() == 0),
                part_views(parts@) == named_pieces(done),
            decreases bytes.len() - i,
        {
            let b: u8 = bytes[i];
            proof {
                assert(bytes@.take(i + 1).drop_last() =~= bytes@.take(i as int));
                assert(bytes@.take(i + 1).last() == b);
            }
            if b == SLASH {
                let ghost piece = current@;
                let ghost kept = parts@;
                let keep = in_first || !(current.len() == 0 || (current.len() == 1 && current[0]
                    == DOT));
                proof {
                    lemma_keep(piece);
                    lemma_named_push(done, piece);
                }
                if keep {
                    parts.push(current);
                    proof {
                        assert(part_views(parts@) =~= part_views(kept).push(piece));
                    }
                }
                current = Vec::new();
                in_first = false;
                proof {
                    done = done.push(piece);
                }
            } else {
                let ghost piece = current@;
                current.push(b);
                proof {
                    assert(done.push(piece).update(done.len() as int, piece.push(b))
                        =~= done.push(current@));
                }
            }
            i = i + 1;
        }
        proof {
            assert(bytes@.take(bytes@.len() as int) =~= bytes@);
            lemma_keep(current@);
            lemma_named_push(done, current@);
        }
        let ghost kept = parts@;
        let ghost piece = current@;
        if in_first || !(current.len() == 0 || (current.len() == 1 && current[0] == DOT)) {
            parts.push(current);
            proof {
                assert(part_views(parts@) =~= part_views(kept).push(piece));
            }
        }
        parts
    }

    /// Whether this path is `base` or lies below it.
    pub fn starts_with(&self, base: &FilePath) -> (res: bool)
        ensures
            res == is_under(self@, base@),
    {
        let own = self.components();
        let other = base.components();
        starts_with_parts(&own, &other)
    }
}

proof fn lemma_keep(piece: Seq<u8>)
    ensures
        is_ordinary(piece) == !(piece.len() == 0 || (piece.len() == 1 && piece[0] == DOT)),
{
    if piece.len() == 1 && piece[0] == DOT {
        assert(piece =~= seq![DOT]);
    }
}

proof fn lemma_named_push(done: Seq<Seq<u8>>, piece: Seq<u8>)
    ensures
        named_pieces(done.push(piece)) == (if done.len() == 0 || is_ordinary(piece) {
            named_pieces(done).push(piece)
        } else {
            named_pieces(done)
        }),
{
    assert(done.push(piece).drop_last() =~= done);
    if done.len() == 0 {
        assert(named_pieces(done) =~= Seq::empty());
    }
}

/// Whether the components `own` start with the components `base`.
pub fn starts_with_parts(own: &Vec<Vec<u8>>, base: &Vec<Vec<u8>>) -> (res: bool)
    ensures
        res == part_views(base@).is_prefix_of(part_views(own@)),
{
    if base.len() > own.len() {
        return false;
    }
    let mut i: usize = 0;
    while i < base.len()
        invariant
            i <= base.len() <= own.len(),
            forall|j: int| 0 <= j < i ==> base@[j]@ == #[trigger] own@[j]@,
        decreases base.len() - i,
    {
        if !same_bytes(&own[i], &base[i]) {
            proof {
                let prefix = part_views(own@).subrange(0, base@.len() as int);
                assert(part_views(base@)[i as int] != prefix[i as int]);
            }
            return false;
        }
        i = i + 1;
    }
    proof {
        assert(part_views(base@) =~= part_views(own@).subrange(0, base@.len() as int));
    }
    true
}

// A measure of components that grows with the path, and strictly where the components change.
spec fn weight(c: Seq<Seq<u8>>) -> nat
    decreases c.len(),
{
    if c.len() == 0 {
        0
    } else {
        weight(c.drop_last()) + c.last().len() + 1
    }
}

proof fn lemma_weight_push(c: Seq<Seq<u8>>, part: Seq<u8>)
    ensures
        weight(c.push(part)) == weight(c) + part.len() + 1,
{
    assert(c.push(part).drop_last() =~= c);
}

proof fn lemma_weight_step(p: Seq<u8>, b: u8)
    ensures
        components(p.push(b)) == components(p) || weight(components(p)) < weight(
            components(p.push(b)),
        ),
{
    let last = pieces(p).last();
    let before = components(p);
    let after = components(p.push(b));
    lemma_components_push(p, b);
    lemma_pieces_nonempty(p);
    let none = Seq::<Seq<u8>>::empty();
    assert(weight(none) == 0);
    if b == SLASH {
        if p.len() == 0 {
            lemma_weight_push(none, Seq::empty());
            assert(none.push(Seq::empty()) =~= seq![Seq::<u8>::empty()]);
        }
    } else if pieces(p).len() == 1 {
        lemma_weight_push(none, p.push(b));
        lemma_weight_push(none, p);
        assert(none.push(p.push(b)) =~= seq![p.push(b)]);
        assert(none.push(p) =~= seq![p]);
    } else if is_ordinary(last.push(b)) {
        if is_ordinary(last) {
            lemma_weight_push(before.drop_last(), last.push(b));
        } else {
            lemma_weight_push(before, last.push(b));
        }
    }
}

proof fn lemma_weight_monotone(p: Seq<u8>, m: int, n: int)
    requires
        0 <= m <= n <= p.len(),
    ensures
        weight(components(p.take(m))) <= weight(components(p.take(n))),
    decreases n - m,
{
    if m < n {
        lemma_weight_monotone(p, m, n - 1);
        lemma_weight_step(p.take(n - 1), p[n - 1]);
        assert(p.take(n - 1).push(p[n - 1]) =~= p.take(n));
    }
}

// The first `n` bytes of `p` are the shortest prefix with the components `c`.
spec fn is_shortest(p: Seq<u8>, c: Seq<Seq<u8>>, n: int) -> bool {
    &&& 0 <= n <= p.len()
    &&& components(p.take(n)) == c
    &&& forall|m: int| 0 <= m < n ==> components(#[trigger] p.take(m)) != c
}

proof fn lemma_new_components_are_shortest(p: Seq<u8>, n: int)
    requires
        0 < n <= p.len(),
        components(p.take(n)) != components(p.take(n - 1)),
    ensures
        is_shortest(p, components(p.take(n)), n),
{
    lemma_weight_step(p.take(n - 1), p[n - 1]);
    assert(p.take(n - 1).push(p[n - 1]) =~= p.take(n));
    assert forall|m: int| 0 <= m < n implies components(#[trigger] p.take(m)) != components(
        p.take(n),
    ) by {
        lemma_weight_monotone(p, m, n - 1);
    }
}

proof fn lemma_grows_to_dot(piece: Seq<u8>, b: u8)
    ensures
        piece.push(b) == seq![DOT] <==> piece.len() == 0 && b == DOT,
{
    if piece.len() == 0 && b == DOT {
        assert(piece.push(b) =~= seq![DOT]);
    }
    if piece.push(b) == seq![DOT] {
        assert(piece.push(b).len() == 1);
        assert(piece.push(b)[0] == DOT);
    }
}

/// The number of bytes of the path above `bytes`, if there is one.
#[verifier::spinoff_prover]
fn parent_len(bytes: &Vec<u8>) -> (res: Option<usize>)
    ensures
        match res {
            Some(n) => n <= bytes.len() && parent(bytes@) == Some(bytes@.take(n as int)),
            None => parent(bytes@) is None,
        },
{
    let ghost p = bytes@;
    let mut end: usize = 0;
    let mut above: usize = 0;
    let mut only_root: bool = false;
    let mut in_first: bool = true;
    let mut piece_len: usize = 0;
    let mut piece_is_dot: bool = false;
    let mut i: usize = 0;
    proof {
        assert(p.take(0) =~= Seq::empty());
        assert(components(p.take(0)).len() == 0);
        assert(seq![Seq::<u8>::empty()].len() == 1);
        assert(seq![DOT].len() == 1);
    }
    while i < bytes.len()
        invariant
            p == bytes@,
            i <= bytes.len(),
            in_first == (pieces(p.take(i as int)).len() == 1),
            piece_len <= i,
            piece_len == pieces(p.take(i as int)).last().len(),
            piece_is_dot == (pieces(p.take(i as int)).last() == seq![DOT]),
            only_root == (components(p.take(i as int)) == seq![Seq::<u8>::empty()]),
            i > 0 ==> components(p.take(i as int)).len() > 0,
            end <= i,
            i == 0 ==> above == 0,
            is_shortest(p, components(p.take(i as int)), end as int),
            i > 0 ==> is_shortest(p, components(p.take(i as int)).drop_last(), above as int),
        decreases bytes.len() - i,
    {
        let b: u8 = bytes[i];
        let ghost now = p.take(i as int);
        let ghost next = p.take(i + 1);
        let ghost last = pieces(now).last();
        proof {
            assert(now.push(b) =~= next);
            assert(next.drop_last() =~= now);
            lemma_components_push(now, b);
            lemma_pieces_nonempty(now);
            lemma_pieces_nonempty(next);
            lemma_keep(last);
            lemma_keep(last.push(b));
            if components(next) != components(now) {
                lemma_new_components_are_shortest(p, i + 1);
            }
        }
        if b == SLASH {
            if i == 0 {
                proof {
                    assert(components(next).drop_last() =~= components(now));
                }
                above = 0;
                end = 1;
                only_root = true;
            }
            proof {
                assert(pieces(next).last() == Seq::<u8>::empty());
                assert(seq![DOT].len() == 1);
            }
            in_first = false;
            piece_len = 0;
            piece_is_dot = false;
        } else {
            proof {
                assert(pieces(next).last() == last.push(b));
                lemma_grows_to_dot(last, b);
            }
            if in_first {
                proof {
                    assert(components(next).drop_last() =~= Seq::empty());
                    if i > 0 {
                        assert(components(now).drop_last() =~= Seq::empty());
                        assert(now != next);
                        assert(components(now)[0] != components(next)[0]);
                    }
                    assert(components(next)[0].len() > 0);
                }
                end = i + 1;
                only_root = false;
            } else if piece_len == 0 && b == DOT {
            } else if piece_len == 0 || piece_is_dot {
                proof {
                    assert(components(next).drop_last() =~= components(now));
                }
                above = end;
                end = i + 1;
                only_root = false;
            } else {
                proof {
                    assert(components(next).drop_last() =~= components(now).drop_last());
                    assert(components(next).last() == last.push(b));
                }
                end = i + 1;
                only_root = false;
            }
            piece_is_dot = piece_len == 0 && b == DOT;
            piece_len = piece_len + 1;
        }
        i = i + 1;
    }
    proof {
        assert(p.take(p.len() as int) =~= p);
    }
    if bytes.len() == 0 || only_root {
        return None;
    }
    proof {
        assert(is_parent_len(p, above as int));
        let n = choose|n: int| is_parent_len(p, n);
        assert(is_parent_len(p, n));
        assert(n == above);
    }
    Some(above)
}

impl FilePath {
    /// The path above this one. The empty path and the root directory have none.
    pub fn parent(&self) -> (res: Option<FilePath>)
        ensures
            opt_path_view(res) == parent(self@),
    {
        match parent_len(&self.bytes) {
            Some(n) => Some(FilePath { bytes: slice_to_vec(slice_subrange(&self.bytes, 0, n)) }),
            None => None,
        }
    }

    /// Goes to the path above this one. Where there is none, the path stays, and the result is
    /// `false`.
    pub fn pop(&mut self) -> (res: bool)
        ensures
            res == (parent(old(self)@) is Some),
            final(self)@ == (match parent(old(self)@) {
                Some(above) => above,
                None => old(self)@,
            }),
    {
        match parent_len(&self.bytes) {
            Some(n) => {
                self.bytes.truncate(n);
                assert(self@ =~= old(self)@.take(n as int));
                true
            },
            None => false,
        }
    }

    /// `tail` read from this path.
    pub fn join(&self, tail: &str) -> (res: FilePath)
        ensures
            res@ == joined(self@, encode_utf8(tail@)),
    {
        let tail_bytes = tail.as_bytes();
        if tail_bytes.len() > 0 && tail_bytes[0] == SLASH {
            return FilePath { bytes: slice_to_vec(tail_bytes) };
        }
        let mut bytes: Vec<u8> = slice_to_vec(&self.bytes);
        if bytes.len() > 0 && bytes[bytes.len() - 1] != SLASH {
            bytes.push(SLASH);
        }
        let mut rest: Vec<u8> = slice_to_vec(tail_bytes);
        bytes.append(&mut rest);
        FilePath { bytes }
    }
}

proof fn lemma_drop_last_is_a_prefix(p: Seq<u8>) -> (n: int)
    requires
        p.len() > 0,
    ensures
        0 <= n <= p.len(),
        components(p).len() > 0,
        components(p.take(n)) == components(p).drop_last(),
    decreases p.len(),
{
    let before = p.drop_last();
    let b = p.last();
    assert(before.push(b) =~= p);
    lemma_components_push(before, b);
    lemma_pieces_nonempty(before);
    if p.len() == 1 {
        assert(before =~= Seq::empty());
        assert(p.take(0) =~= before);
        assert(components(p).drop_last() =~= Seq::empty());
        0
    } else {
        let n = lemma_drop_last_is_a_prefix(before);
        assert(before.take(n) =~= p.take(n));
        if components(p).drop_last() =~= components(before).drop_last() {
            n
        } else {
            assert(components(p).drop_last() =~= components(before));
            assert(p.take(p.len() - 1) =~= before);
            p.len() - 1
        }
    }
}

proof fn lemma_shortest_exists(p: Seq<u8>, c: Seq<Seq<u8>>, n: int) -> (least: int)
    requires
        0 <= n <= p.len(),
        components(p.take(n)) == c,
    ensures
        is_shortest(p, c, least),
        least <= n,
    decreases n,
{
    if exists|m: int| 0 <= m < n && components(#[trigger] p.take(m)) == c {
        let m = choose|m: int| 0 <= m < n && components(#[trigger] p.take(m)) == c;
        lemma_shortest_exists(p, c, m)
    } else {
        n
    }
}

/// The path above `p` is the start of `p` that has all its components but the last, and `p` is
/// under it.
pub proof fn parent_drops_last_component(p: Seq<u8>)
    requires
        parent(p) is Some,
    ensures
        components(p).len() > 0,
        components(parent(p).unwrap()) == components(p).drop_last(),
        parent(p).unwrap().is_prefix_of(p),
        is_under(p, parent(p).unwrap()),
{
    let some = lemma_drop_last_is_a_prefix(p);
    let n = lemma_shortest_exists(p, components(p).drop_last(), some);
    assert(is_parent_len(p, n));
    let chosen = choose|n: int| is_parent_len(p, n);
    assert(is_parent_len(p, chosen));
    assert(components(p).drop_last() =~= components(p).subrange(
        0,
        components(p).drop_last().len() as int,
    ));
}

/// A path is under itself, and what is under a path under `base` is under `base`.
pub proof fn under_is_reflexive_and_transitive(p: Seq<u8>, middle: Seq<u8>, base: Seq<u8>)
    ensures
        is_under(p, p),
        is_under(p, middle) && is_under(middle, base) ==> is_under(p, base),
{
    assert(components(p) =~= components(p).subrange(0, components(p).len() as int));
    if is_under(p, middle) && is_under(middle, base) {
        assert(components(base) =~= components(p).subrange(0, components(base).len() as int)) by {
            let c = components(middle);
            assert forall|i: int| 0 <= i < components(base).len() implies components(base)[i]
                == components(p)[i] by {
                assert(components(base)[i] == c.subrange(0, components(base).len() as int)[i]);
                assert(c[i] == components(p).subrange(0, c.len() as int)[i]);
            }
        }
    }
}

/// Whether `name` can be a file name: it is not empty, not `.` and holds no slash.
pub open spec fn is_file_name(name: Seq<u8>) -> bool {
    is_ordinary(name) && !name.contains(SLASH)
}

proof fn lemma_append_name(p: Seq<u8>, name: Seq<u8>, k: int)
    requires
        p.len() > 0,
        p.last() == SLASH,
        is_file_name(name),
        0 <= k <= name.len(),
    ensures
        pieces(p + name.take(k)).len() > 1,
        pieces(p + name.take(k)).last() == name.take(k),
        components(p + name.take(k)) == (if is_ordinary(name.take(k)) {
            components(p).push(name.take(k))
        } else {
            components(p)
        }),
    decreases k,
{
    if k == 0 {
        assert(p + name.take(0) =~= p);
        assert(name.take(0) =~= Seq::empty());
        lemma_pieces_nonempty(p.drop_last());
    } else {
        lemma_append_name(p, name, k - 1);
        let before = p + name.take(k - 1);
        let b = name[k - 1];
        assert(name.contains(b));
        assert(before.push(b) =~= p + name.take(k));
        assert(before.push(b).drop_last() =~= before);
        assert(name.take(k - 1).push(b) =~= name.take(k));
        lemma_components_push(before, b);
        if is_ordinary(name.take(k - 1)) {
            assert(components(p).push(name.take(k - 1)).drop_last() =~= components(p));
            lemma_keep(name.take(k));
            lemma_keep(name.take(k - 1));
        }
    }
}

/// Joining a file name to a path adds it as the last component.
pub proof fn join_adds_component(p: Seq<u8>, name: Seq<u8>)
    requires
        is_file_name(name),
    ensures
        components(joined(p, name)) == components(p).push(name),
{
    assert(name.contains(name[0]));
    assert(name.take(name.len() as int) =~= name);
    if p.len() == 0 {
        lemma_bare_name(name, name.len() as int);
        assert(p + name =~= name);
        assert(components(p).push(name) =~= seq![name]);
    } else if p.last() == SLASH {
        lemma_append_name(p, name, name.len() as int);
    } else {
        let dir = p.push(SLASH);
        lemma_components_push(p, SLASH);
        lemma_append_name(dir, name, name.len() as int);
    }
}

proof fn lemma_bare_name(name: Seq<u8>, k: int)
    requires
        is_file_name(name),
        0 <= k <= name.len(),
    ensures
        pieces(name.take(k)) == seq![name.take(k)],
        k > 0 ==> components(name.take(k)) == seq![name.take(k)],
    decreases k,
{
    if k == 0 {
        assert(name.take(0) =~= Seq::empty());
    } else {
        lemma_bare_name(name, k - 1);
        let before = name.take(k - 1);
        assert(name.contains(name[k - 1]));
        assert(before.push(name[k - 1]) =~= name.take(k));
        assert(name.take(k).drop_last() =~= before);
        lemma_components_push(before, name[k - 1]);
        lemma_pieces_nonempty(name.take(k));
        assert(pieces(name.take(k)) =~= seq![name.take(k)]);
    }
}

/// Going up undoes joining a file name: it leads back to the same path.
pub proof fn parent_undoes_join(p: Seq<u8>, name: Seq<u8>)
    requires
        is_file_name(name),
    ensures
        parent(joined(p, name)) is Some,
        same_path(parent(joined(p, name)).unwrap(), p),
{
    join_adds_component(p, name);
    let whole = joined(p, name);
    assert(components(whole).last() == name);
    assert(components(whole) != seq![Seq::<u8>::empty()]) by {
        assert(seq![Seq::<u8>::empty()].last().len() == 0);
    }
    parent_drops_last_component(whole);
    assert(components(p).push(name).drop_last() =~= components(p));
}

/// The components `c`, each with a slash behind it.
pub open spec fn spelled(c: Seq<Seq<u8>>) -> Seq<u8>
    decreases c.len(),
{
    if c.len() == 0 {
        Seq::empty()
    } else {
        spelled(c.drop_last()) + c.last().push(SLASH)
    }
}

proof fn lemma_pieces_hold_no_slash(p: Seq<u8>)
    ensures
        forall|i: int| 0 <= i < pieces(p).len() ==> !(#[trigger] pieces(p)[i]).contains(SLASH),
    decreases p.len(),
{
    if p.len() > 0 {
        lemma_pieces_hold_no_slash(p.drop_last());
        lemma_pieces_nonempty(p.drop_last());
        let before = pieces(p.drop_last());
        assert forall|i: int| 0 <= i < pieces(p).len() implies !(#[trigger] pieces(p)[i]).contains(
            SLASH,
        ) by {
            if i < before.len() - 1 {
                assert(pieces(p)[i] == before[i]);
            } else if p.last() != SLASH {
                assert(!before[i].contains(SLASH));
                assert forall|k: int| 0 <= k < pieces(p)[i].len() implies pieces(p)[i][k]
                    != SLASH by {
                    if k < before[i].len() {
                        assert(before[i].contains(before[i][k]));
                    }
                }
            } else if i < before.len() {
                assert(pieces(p)[i] == before[i]);
            }
        }
    }
}

proof fn lemma_named_hold_no_slash(q: Seq<Seq<u8>>)
    requires
        forall|i: int| 0 <= i < q.len() ==> !(#[trigger] q[i]).contains(SLASH),
    ensures
        forall|i: int|
            0 <= i < named_pieces(q).len() ==> !(#[trigger] named_pieces(q)[i]).contains(SLASH),
    decreases q.len(),
{
    if q.len() > 1 {
        assert forall|i: int| 0 <= i < q.drop_last().len() implies !(
        #[trigger] q.drop_last()[i]).contains(SLASH) by {
            assert(q.drop_last()[i] == q[i]);
        }
        lemma_named_hold_no_slash(q.drop_last());
        assert(!q[q.len() - 1].contains(SLASH));
        let kept = named_pieces(q.drop_last());
        assert forall|i: int| 0 <= i < named_pieces(q).len() implies !(
        #[trigger] named_pieces(q)[i]).contains(SLASH) by {
            if i < kept.len() {
                assert(named_pieces(q)[i] == kept[i]);
            }
        }
    } else {
        assert(named_pieces(q) == q);
    }
}

proof fn lemma_spelled_is_injective(a: Seq<Seq<u8>>, b: Seq<Seq<u8>>)
    requires
        forall|i: int| 0 <= i < a.len() ==> !(#[trigger] a[i]).contains(SLASH),
        forall|i: int| 0 <= i < b.len() ==> !(#[trigger] b[i]).contains(SLASH),
        spelled(a) == spelled(b),
    ensures
        a == b,
    decreases a.len(),
{
    if a.len() == 0 || b.len() == 0 {
        if a.len() > 0 {
            assert(spelled(a).last() == SLASH);
            assert(spelled(b).len() == 0);
        }
        if b.len() > 0 {
            assert(spelled(b).last() == SLASH);
            assert(spelled(a).len() == 0);
        }
        assert(a =~= b);
    } else {
        let s = spelled(a);
        let x = a.last();
        let y = b.last();
        let ra = spelled(a.drop_last());
        let rb = spelled(b.drop_last());
        assert(s == ra + x.push(SLASH));
        assert(s == rb + y.push(SLASH));
        lemma_last_piece_fits(a, b);
        lemma_last_piece_fits(b, a);
        assert(ra.len() == rb.len());
        assert(ra =~= s.take(ra.len() as int));
        assert(rb =~= s.take(rb.len() as int));
        assert(x =~= y) by {
            assert forall|k: int| 0 <= k < x.len() implies x[k] == y[k] by {
                assert(s[ra.len() + k] == x[k]);
                assert(s[rb.len() + k] == y[k]);
            }
        }
        assert forall|i: int| 0 <= i < a.drop_last().len() implies !(
        #[trigger] a.drop_last()[i]).contains(SLASH) by {
            assert(a.drop_last()[i] == a[i]);
        }
        assert forall|i: int| 0 <= i < b.drop_last().len() implies !(
        #[trigger] b.drop_last()[i]).contains(SLASH) by {
            assert(b.drop_last()[i] == b[i]);
        }
        lemma_spelled_is_injective(a.drop_last(), b.drop_last());
        assert(a =~= a.drop_last().push(x));
        assert(b =~= b.drop_last().push(y));
    }
}

// Of two spellings that agree, neither ends in a longer piece.
proof fn lemma_last_piece_fits(a: Seq<Seq<u8>>, b: Seq<Seq<u8>>)
    requires
        a.len() > 0,
        b.len() > 0,
        forall|i: int| 0 <= i < b.len() ==> !(#[trigger] b[i]).contains(SLASH),
        spelled(a) == spelled(b),
    ensures
        b.last().len() <= a.last().len(),
{
    let s = spelled(a);
    let x = a.last();
    let y = b.last();
    let ra = spelled(a.drop_last());
    let rb = spelled(b.drop_last());
    assert(s == ra + x.push(SLASH));
    assert(s == rb + y.push(SLASH));
    if x.len() < y.len() {
        assert(ra.len() + x.len() == rb.len() + y.len());
        assert(ra.len() > 0);
        let before = a.drop_last();
        assert(ra == spelled(before.drop_last()) + before.last().push(SLASH));
        let at = ra.len() - 1;
        assert(s[at] == SLASH);
        assert(s[at] == y[at - rb.len()]);
        assert(y.contains(y[at - rb.len()]));
    }
}

/// Two paths are the same path exactly when their components are spelled alike.
pub proof fn same_path_is_same_spelling(p: Seq<u8>, q: Seq<u8>)
    ensures
        same_path(p, q) <==> spelled(components(p)) == spelled(components(q)),
{
    lemma_pieces_hold_no_slash(p);
    lemma_pieces_hold_no_slash(q);
    lemma_named_hold_no_slash(pieces(p));
    lemma_named_hold_no_slash(pieces(q));
    if spelled(components(p)) == spelled(components(q)) {
        lemma_spelled_is_injective(components(p), components(q));
    }
}

/// The characters of the same values as `bytes`.
pub open spec fn byte_chars(bytes: Seq<u8>) -> Seq<char> {
    bytes.map_values(|b: u8| b as char)
}

impl FilePath {
    /// The components of this path, each with a slash behind it: the same bytes for the same path,
    /// and for no other.
    #[verifier::spinoff_prover]
    fn spelled_bytes(&self) -> (res: Vec<u8>)
        ensures
            res@ == spelled(components(self@)),
    {
        let ghost p = self@;
        let bytes = &self.bytes;
        let mut out: Vec<u8> = Vec::with_capacity(bytes.len());
        let mut in_first: bool = true;
        let mut piece_len: usize = 0;
        let mut piece_is_dot: bool = false;
        let mut i: usize = 0;
        proof {
            assert(p.take(0) =~= Seq::empty());
            assert(out@ =~= Seq::empty());
        }
        while i < bytes.len()
            invariant
                p == bytes@,
                i <= bytes.len(),
                in_first == (pieces(p.take(i as int)).len() == 1),
                piece_len <= i,
                piece_len == pieces(p.take(i as int)).last().len(),
                piece_is_dot == (pieces(p.take(i as int)).last() == seq![DOT]),
                in_first && i == 0 ==> out@ == Seq::<u8>::empty(),
                in_first && i > 0 ==> out@ == p.take(i as int),
                !in_first && is_ordinary(pieces(p.take(i as int)).last()) ==> out@.push(SLASH)
                    == spelled(components(p.take(i as int))),
                !in_first && !is_ordinary(pieces(p.take(i as int)).last()) ==> out@ == spelled(
                    components(p.take(i as int)),
                ),
            decreases bytes.len() - i,
        {
            let b: u8 = bytes[i];
            let ghost now = p.take(i as int);
            let ghost next = p.take(i + 1);
            let ghost last = pieces(now).last();
            proof {
                assert(now.push(b) =~= next);
                assert(next.drop_last() =~= now);
                lemma_components_push(now, b);
                lemma_pieces_nonempty(now);
                lemma_pieces_nonempty(next);
                assert(seq![DOT].len() == 1);
            }
            let ordinary = piece_len > 0 && !piece_is_dot;
            assert(ordinary == is_ordinary(last));
            if b == SLASH {
                proof {
                    if in_first {
                        lemma_spelled_one(now);
                        assert(pieces(now) == seq![now]);
                        if i > 0 {
                            assert(named_pieces(pieces(now)) == seq![now]);
                        } else {
                            assert(now =~= Seq::empty());
                        }
                    }
                    assert(pieces(next).last() == Seq::<u8>::empty());
                }
                if in_first || ordinary {
                    out.push(SLASH);
                }
                in_first = false;
                piece_len = 0;
                piece_is_dot = false;
            } else {
                proof {
                    assert(pieces(next).last() == last.push(b));
                    lemma_grows_to_dot(last, b);
                }
                let dot = piece_len == 0 && b == DOT;
                if in_first {
                    out.push(b);
                    proof {
                        assert(out@ =~= next);
                    }
                } else if dot {
                } else if ordinary {
                    proof {
                        let before = components(now).drop_last();
                        lemma_spelled_push(before, last);
                        lemma_spelled_push(before, last.push(b));
                        assert(components(now) =~= before.push(last));
                        assert(out@.push(SLASH).drop_last() =~= out@);
                        assert((spelled(before) + last.push(SLASH)).drop_last() =~= spelled(before)
                            + last);
                        assert(out@.push(b).push(SLASH) =~= spelled(before) + last.push(b).push(
                            SLASH,
                        ));
                    }
                    out.push(b);
                } else {
                    let ghost before = out@;
                    if piece_is_dot {
                        out.push(DOT);
                        proof {
                            assert(out@ =~= before + last);
                        }
                    } else {
                        assert(out@ =~= before + last);
                    }
                    out.push(b);
                    proof {
                        lemma_spelled_push(components(now), last.push(b));
                        assert(out@.push(SLASH) =~= before + last.push(b).push(SLASH));
                    }
                }
                piece_is_dot = dot;
                piece_len = piece_len + 1;
            }
            i = i + 1;
        }
        proof {
            assert(p.take(p.len() as int) =~= p);
            lemma_pieces_nonempty(p);
            if in_first {
                lemma_spelled_one(p);
                if p.len() > 0 {
                    assert(components(p) == seq![p]);
                }
            }
            assert(seq![DOT].len() == 1);
        }
        if bytes.len() > 0 && (in_first || (piece_len > 0 && !piece_is_dot)) {
            out.push(SLASH);
        }
        out
    }

    /// The components of this path, each with a slash behind it, as characters of the same values
    /// as the bytes: the same text for the same path, and for no other.
    pub fn spelling(&self) -> (res: String)
        ensures
            res@ == byte_chars(spelled(components(self@))),
    {
        let bytes = self.spelled_bytes();
        let mut ascii: bool = true;
        let mut i: usize = 0;
        while i < bytes.len()
            invariant
                i <= bytes.len(),
                ascii ==> forall|k: int| 0 <= k < i ==> #[trigger] bytes@[k] < 0x80,
            decreases bytes.len() - i,
        {
            ascii = ascii && bytes[i] < 0x80;
            i = i + 1;
        }
        if ascii {
            proof {
                lemma_ascii_text(bytes@);
            }
            match String::from_utf8(bytes) {
                Ok(text) => text,
                Err(_) => String::new(),
            }
        } else {
            let mut res = String::new();
            let mut k: usize = 0;
            assert(res@ =~= byte_chars(bytes@.take(0)));
            while k < bytes.len()
                invariant
                    k <= bytes.len(),
                    res@ == byte_chars(bytes@.take(k as int)),
                decreases bytes.len() - k,
            {
                res.push(bytes[k] as char);
                proof {
                    assert(res@ =~= byte_chars(bytes@.take(k + 1)));
                }
                k = k + 1;
            }
            assert(bytes@.take(bytes@.len() as int) =~= bytes@);
            res
        }
    }
}

// Bytes of ASCII are the encoding of the characters of the same values.
proof fn lemma_ascii_text(bytes: Seq<u8>)
    requires
        forall|k: int| 0 <= k < bytes.len() ==> #[trigger] bytes[k] < 0x80,
    ensures
        valid_utf8(bytes),
        decode_utf8(bytes) == byte_chars(bytes),
{
    let chars = byte_chars(bytes);
    assert forall|i: int| 0 <= i < chars.len() implies '\0' <= #[trigger] chars[i] <= '\u{7f}' by {
        assert(bytes[i] < 0x80);
    }
    is_ascii_chars_encode_utf8(chars);
    assert(encode_utf8(chars) =~= bytes) by {
        assert forall|i: int| 0 <= i < bytes.len() implies encode_utf8(chars)[i] == bytes[i] by {
            assert(chars[i] as u8 == encode_utf8(chars)[i]);
        }
    }
    encode_utf8_valid_utf8(chars);
    encode_utf8_decode_utf8(chars);
}

proof fn lemma_spelled_push(c: Seq<Seq<u8>>, x: Seq<u8>)
    ensures
        spelled(c.push(x)) == spelled(c) + x.push(SLASH),
{
    assert(c.push(x).drop_last() =~= c);
}

proof fn lemma_spelled_one(x: Seq<u8>)
    ensures
        spelled(seq![x]) == x.push(SLASH),
        spelled(seq![Seq::<u8>::empty()]) == seq![SLASH],
{
    let none: Seq<Seq<u8>> = Seq::empty();
    lemma_spelled_push(none, x);
    lemma_spelled_push(none, Seq::empty());
    assert(none.push(x) =~= seq![x]);
    assert(none.push(Seq::empty()) =~= seq![Seq::<u8>::empty()]);
    assert(spelled(none) + x.push(SLASH) =~= x.push(SLASH));
    assert(spelled(none) + Seq::<u8>::empty().push(SLASH) =~= seq![SLASH]);
}

/// A copy of the path in `p`, if there is one.
pub fn clone_opt_path(p: &Option<FilePath>) -> (res: Option<FilePath>)
    ensures
        opt_path_view(res) == opt_path_view(*p),
{
    match p {
        Some(p) => Some(p.clone()),
        None => None,
    }
}

/// Whether `p` is written without a spare byte: no doubled or trailing slash, and no `.` behind a
/// slash.
pub open spec fn is_tidy(p: Seq<u8>) -> bool {
    p.len() == 0 || p == seq![SLASH] || p.push(SLASH) == spelled(components(p))
}

proof fn lemma_later_components_ordinary(q: Seq<Seq<u8>>)
    ensures
        forall|i: int| 1 <= i < named_pieces(q).len() ==> is_ordinary(#[trigger] named_pieces(q)[i]),
        q.len() >= 1 ==> named_pieces(q).len() >= 1,
    decreases q.len(),
{
    if q.len() > 1 {
        lemma_later_components_ordinary(q.drop_last());
        let kept = named_pieces(q.drop_last());
        assert forall|i: int| 1 <= i < named_pieces(q).len() implies is_ordinary(
            #[trigger] named_pieces(q)[i],
        ) by {
            if i < kept.len() {
                assert(named_pieces(q)[i] == kept[i]);
            }
        }
    }
}

proof fn lemma_spelled_grows(c: Seq<Seq<u8>>, n: int)
    requires
        0 <= n < c.len(),
        forall|i: int| 1 <= i < c.len() ==> is_ordinary(#[trigger] c[i]),
    ensures
        spelled(c.take(n)).len() + 1 <= spelled(c).len(),
        n >= 1 ==> spelled(c.take(n)).len() + 2 <= spelled(c).len(),
    decreases c.len(),
{
    let shorter = c.drop_last();
    if c.len() > 1 {
        assert(is_ordinary(c[c.len() - 1]));
    }
    if n == c.len() - 1 {
        assert(c.take(n) =~= shorter);
    } else {
        assert forall|i: int| 1 <= i < shorter.len() implies is_ordinary(#[trigger] shorter[i]) by {
            assert(shorter[i] == c[i]);
        }
        lemma_spelled_grows(shorter, n);
        assert(shorter.take(n) =~= c.take(n));
    }
}

/// Of two tidy paths that a path is under, the one that is no shorter in bytes is under the other.
pub proof fn longer_tidy_base_is_deeper(p: Seq<u8>, long: Seq<u8>, short: Seq<u8>)
    requires
        is_under(p, long),
        is_under(p, short),
        is_tidy(long),
        is_tidy(short),
        short.len() <= long.len(),
    ensures
        is_under(long, short),
{
    let cl = components(long);
    let cs = components(short);
    let cp = components(p);
    lemma_pieces_nonempty(long);
    lemma_pieces_nonempty(short);
    lemma_later_components_ordinary(pieces(long));
    lemma_later_components_ordinary(pieces(short));
    if cl.len() < cs.len() {
        assert(cs.take(cl.len() as int) =~= cl) by {
            assert forall|i: int| 0 <= i < cl.len() implies cs[i] == cl[i] by {
                assert(cl[i] == cp.subrange(0, cl.len() as int)[i]);
                assert(cs[i] == cp.subrange(0, cs.len() as int)[i]);
            }
        }
        lemma_spelled_grows(cs, cl.len() as int);
        let slash = seq![SLASH];
        if short == slash {
            lemma_components_push(Seq::empty(), SLASH);
            assert(Seq::<u8>::empty().push(SLASH) =~= slash);
        }
        if long == slash {
            lemma_components_push(Seq::empty(), SLASH);
            assert(Seq::<u8>::empty().push(SLASH) =~= slash);
            assert(spelled(cl.drop_last()).len() == 0);
        }
    } else {
        assert(cs =~= cl.subrange(0, cs.len() as int)) by {
            assert forall|i: int| 0 <= i < cs.len() implies cs[i] == cl[i] by {
                assert(cl[i] == cp.subrange(0, cl.len() as int)[i]);
                assert(cs[i] == cp.subrange(0, cs.len() as int)[i]);
            }
        }
    }
}

/// The empty path has no components and the root directory only the empty one. A slash at the end
/// of a path does not count, nor does a dot behind it.
pub proof fn spare_bytes_do_not_count(p: Seq<u8>)
    ensures
        components(Seq::empty()).len() == 0,
        components(seq![0x2fu8]) == seq![Seq::<u8>::empty()],
        p.len() > 0 ==> same_path(p.push(0x2f), p),
        p.len() > 0 ==> same_path(p.push(0x2f).push(0x2e), p),
{
    let none = Seq::<u8>::empty();
    lemma_components_push(none, SLASH);
    assert(none.push(SLASH) =~= seq![0x2fu8]);
    if p.len() > 0 {
        let longer = p.push(SLASH);
        lemma_components_push(p, SLASH);
        lemma_pieces_nonempty(p);
        assert(longer.drop_last() =~= p);
        assert(pieces(longer).last() == none);
        lemma_components_push(longer, DOT);
        lemma_pieces_nonempty(longer);
        assert(pieces(longer) == pieces(p).push(Seq::empty()));
        assert(none.push(DOT) =~= seq![DOT]);
    }
}

/// Exactly the paths without a name have no path above them: the empty path and the root
/// directory.
pub proof fn every_named_path_has_a_parent(p: &FilePath, above: Option<FilePath>)
    requires
        call_ensures(FilePath::parent, (p,), above),
    ensures
        above is None <==> components(p@).len() == 0 || (components(p@).len() == 1 && components(
            p@,
        )[0].len() == 0),
        above matches Some(dir) ==> components(dir@) == components(p@).take(
            components(p@).len() - 1,
        ),
{
    let c = components(p@);
    if c.len() == 1 && c[0].len() == 0 {
        assert(c[0] =~= Seq::<u8>::empty());
        assert(c =~= seq![Seq::<u8>::empty()]);
    }
    if above is Some {
        parent_drops_last_component(p@);
        assert(c.drop_last() =~= c.take(c.len() - 1));
    }
}

/// Going up is the same as taking the path above, and stays where there is none.
pub proof fn going_up_is_taking_the_parent(
    p: &FilePath,
    above: Option<FilePath>,
    moved: &mut FilePath,
    went: bool,
)
    requires
        call_ensures(FilePath::parent, (p,), above),
        old(moved)@ == p@,
        call_ensures(FilePath::pop, (moved,), went),
    ensures
        went <==> above is Some,
        above matches Some(dir) ==> final(moved)@ == dir@,
        above is None ==> final(moved)@ == p@,
{
}

/// A name that is joined to a path lies below it: the result is under the path, has the name as its
/// last component and the path above it; it is under another name in the same path only where the
/// names are the same.
pub proof fn joined_name_lies_below(
    p: &FilePath,
    name: &str,
    other: &str,
    child: FilePath,
    sibling: FilePath,
    below: bool,
    beside: bool,
    above: bool,
)
    requires
        is_file_name(encode_utf8(name@)),
        is_file_name(encode_utf8(other@)),
        call_ensures(FilePath::join, (p, name), child),
        call_ensures(FilePath::join, (p, other), sibling),
        call_ensures(FilePath::starts_with, (&child, p), below),
        call_ensures(FilePath::starts_with, (&child, &sibling), beside),
        call_ensures(FilePath::starts_with, (p, &child), above),
    ensures
        below,
        !above,
        beside <==> encode_utf8(name@) == encode_utf8(other@),
        components(child@) == components(p@).push(encode_utf8(name@)),
{
    let n = encode_utf8(name@);
    let m = encode_utf8(other@);
    let c = components(p@);
    join_adds_component(p@, n);
    join_adds_component(p@, m);
    assert(c =~= c.push(n).subrange(0, c.len() as int));
    assert(c.push(n).last() == n && c.push(m).last() == m);
    if n == m {
        assert(c.push(n) =~= c.push(n).subrange(0, c.push(n).len() as int));
    } else if beside {
        assert(c.push(m) == c.push(n).subrange(0, c.push(m).len() as int));
        assert(c.push(m)[c.len() as int] == c.push(n)[c.len() as int]);
    }
}

/// An absolute tail takes the place of the path that it is read from.
pub proof fn absolute_tail_replaces(p: &FilePath, tail: &str, res: FilePath)
    requires
        call_ensures(FilePath::join, (p, tail), res),
        encode_utf8(tail@).len() > 0,
        encode_utf8(tail@)[0] == 0x2f,
    ensures
        res@ == encode_utf8(tail@),
{
}

/// A path is under another exactly where its components begin with those of the other, so that two
/// paths under each other are the same.
pub proof fn under_both_ways_is_the_same(
    p: &FilePath,
    q: &FilePath,
    one_way: bool,
    other_way: bool,
)
    requires
        call_ensures(FilePath::starts_with, (p, q), one_way),
        call_ensures(FilePath::starts_with, (q, p), other_way),
    ensures
        one_way ==> components(q@).len() <= components(p@).len(),
        one_way && other_way <==> same_path(p@, q@),
        forall|i: int|
            one_way && 0 <= i < components(q@).len() ==> components(p@)[i] == #[trigger] components(
                q@,
            )[i],
{
    let a = components(p@);
    let b = components(q@);
    if one_way {
        assert forall|i: int| 0 <= i < b.len() implies a[i] == #[trigger] b[i] by {
            assert(b[i] == a.subrange(0, b.len() as int)[i]);
        }
    }
    if one_way && other_way {
        assert(a =~= b);
    }
    if a == b {
        assert(a =~= a.subrange(0, a.len() as int));
    }
}

/// The spelling of a path is the same for the same path, and for no other.
pub proof fn spelling_tells_paths_apart(
    p: &FilePath,
    q: &FilePath,
    first: String,
    second: String,
)
    requires
        call_ensures(FilePath::spelling, (p,), first),
        call_ensures(FilePath::spelling, (q,), second),
    ensures
        first@ == second@ <==> same_path(p@, q@),
{
    same_path_is_same_spelling(p@, q@);
    let s = spelled(components(p@));
    let t = spelled(components(q@));
    if first@ == second@ {
        assert(s.len() == first@.len() && t.len() == second@.len());
        assert forall|i: int| 0 <= i < s.len() implies s[i] == t[i] by {
            assert(first@[i] == s[i] as char);
            assert(second@[i] == t[i] as char);
        }
        assert(s =~= t);
    }
}

} // verus!
