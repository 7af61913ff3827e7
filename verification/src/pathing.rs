//! Canonical paths and confinement.
//!
//! Paths are modelled as sequences of normal segments under a filesystem
//! root; the model filesystem is symlink-free, so resolution is lexical:
//! `""` and `"."` pieces are skipped, `".."` pops one segment (staying put at
//! the filesystem root), a leading separator restarts resolution at the
//! filesystem root, and everything else descends. A resolved path is confined
//! to a root exactly when the root's segments are a prefix of its own.

use vstd::prelude::*;
use vstd::string::*;

verus! {

/// The one-character segment `"."`.
pub open spec fn seg_dot() -> Seq<char> {
    seq!['.']
}

/// The two-character segment `".."`.
pub open spec fn seg_dotdot() -> Seq<char> {
    seq!['.', '.']
}

/// A segment that names a directory entry: nonempty, free of separators and
/// not one of the two relative segments.
pub open spec fn is_normal_seg(s: Seq<char>) -> bool {
    &&& s.len() > 0
    &&& !s.contains('/')
    &&& s != seg_dot()
    &&& s != seg_dotdot()
}

/// Every segment of `p` is normal.
pub open spec fn all_normal(p: Seq<Seq<char>>) -> bool {
    forall|i: int| 0 <= i < p.len() ==> is_normal_seg(#[trigger] p[i])
}

/// The index of the first `'/'` in `s`, or `s.len()` if there is none.
pub open spec fn first_slash(s: Seq<char>) -> nat
    decreases s.len(),
{
    if s.len() == 0 {
        0
    } else if s[0] == '/' {
        0
    } else {
        1 + first_slash(s.skip(1))
    }
}

pub proof fn lemma_first_slash(s: Seq<char>)
    ensures
        first_slash(s) <= s.len(),
        first_slash(s) < s.len() ==> s[first_slash(s) as int] == '/',
        forall|j: int| 0 <= j < first_slash(s) ==> s[j] != '/',
        first_slash(s) == s.len() ==> !s.contains('/'),
    decreases s.len(),
{
    if s.len() == 0 {
    } else if s[0] == '/' {
    } else {
        lemma_first_slash(s.skip(1));
        assert forall|j: int| 0 <= j < first_slash(s) implies s[j] != '/' by {
            if j > 0 {
                assert(s.skip(1)[j - 1] == s[j]);
            }
        }
        if first_slash(s) == s.len() {
            assert forall|j: int| 0 <= j < s.len() implies s[j] != '/' by {
                if j > 0 {
                    assert(s.skip(1)[j - 1] == s[j]);
                }
            }
            assert(!s.contains('/'));
        }
    }
}

/// Splits `s` at every `'/'`; the pieces keep their order and may be empty.
pub open spec fn split_slash(s: Seq<char>) -> Seq<Seq<char>>
    decreases s.len(),
{
    let i = first_slash(s) as int;
    if i >= s.len() {
        seq![s]
    } else {
        seq![s.take(i)] + split_slash(s.skip(i + 1))
    }
}

/// One step of lexical resolution.
pub open spec fn apply_piece(base: Seq<Seq<char>>, piece: Seq<char>) -> Seq<Seq<char>> {
    if piece.len() == 0 || piece == seg_dot() {
        base
    } else if piece == seg_dotdot() {
        if base.len() == 0 {
            base
        } else {
            base.drop_last()
        }
    } else {
        base.push(piece)
    }
}

/// Lexical resolution of a sequence of pieces against a base path.
pub open spec fn apply_pieces(base: Seq<Seq<char>>, pieces: Seq<Seq<char>>) -> Seq<Seq<char>>
    decreases pieces.len(),
{
    if pieces.len() == 0 {
        base
    } else {
        apply_pieces(apply_piece(base, pieces[0]), pieces.skip(1))
    }
}

/// The path a requested `name` resolves to against the confinement root
/// `root`. A leading separator makes the name absolute, restarting at the
/// filesystem root.
pub open spec fn resolve_under(root: Seq<Seq<char>>, name: Seq<char>) -> Seq<Seq<char>> {
    if name.len() > 0 && name[0] == '/' {
        apply_pieces(Seq::<Seq<char>>::empty(), split_slash(name.skip(1)))
    } else {
        apply_pieces(root, split_slash(name))
    }
}

/// `root` is a prefix of `p`: the path `p` lies inside `root`.
pub open spec fn is_prefix_of(root: Seq<Seq<char>>, p: Seq<Seq<char>>) -> bool {
    p.len() >= root.len() && p.subrange(0, root.len() as int) == root
}

/// A well-formed canonical absolute path string: a separator, then one or
/// more normal segments joined by single separators.
pub open spec fn is_canonical_abs(s: Seq<char>) -> bool {
    s.len() >= 2 && s[0] == '/' && all_normal(split_slash(s.skip(1)))
}

/// No piece produced by splitting contains a separator.
pub proof fn lemma_split_slash_no_slash(s: Seq<char>)
    ensures
        forall|k: int| 0 <= k < split_slash(s).len() ==> !(#[trigger] split_slash(s)[k]).contains(
            '/',
        ),
    decreases s.len(),
{
    lemma_first_slash(s);
    let i = first_slash(s) as int;
    if i >= s.len() {
        assert forall|k: int| 0 <= k < split_slash(s).len() implies !(#[trigger] split_slash(
            s,
        )[k]).contains('/') by {
            assert(split_slash(s)[k] == s);
        }
    } else {
        lemma_split_slash_no_slash(s.skip(i + 1));
        assert forall|k: int| 0 <= k < split_slash(s).len() implies !(#[trigger] split_slash(
            s,
        )[k]).contains('/') by {
            if k == 0 {
                assert(split_slash(s)[0] == s.take(i));
                assert forall|j: int| 0 <= j < s.take(i).len() implies s.take(i)[j] != '/' by {
                    assert(s.take(i)[j] == s[j]);
                }
            } else {
                assert(split_slash(s)[k] == split_slash(s.skip(i + 1))[k - 1]);
            }
        }
    }
}

/// Folding one more piece extends a fold over a prefix of the pieces.
pub proof fn lemma_apply_pieces_snoc(base: Seq<Seq<char>>, pieces: Seq<Seq<char>>, k: int)
    requires
        0 <= k < pieces.len(),
    ensures
        apply_pieces(base, pieces.take(k + 1)) == apply_piece(
            apply_pieces(base, pieces.take(k)),
            pieces[k],
        ),
    decreases k,
{
    if k == 0 {
        assert(pieces.take(0) =~= Seq::<Seq<char>>::empty());
        assert(apply_pieces(base, pieces.take(0)) == base);
        let t1 = pieces.take(1);
        assert(t1.len() == 1);
        assert(t1[0] == pieces[0]);
        assert(t1.skip(1) =~= Seq::<Seq<char>>::empty());
        assert(apply_pieces(base, t1) == apply_pieces(apply_piece(base, pieces[0]), t1.skip(1)));
        assert(apply_pieces(apply_piece(base, pieces[0]), t1.skip(1)) == apply_piece(
            base,
            pieces[0],
        ));
    } else {
        let base1 = apply_piece(base, pieces[0]);
        let rest = pieces.skip(1);
        lemma_apply_pieces_snoc(base1, rest, k - 1);
        assert(pieces.take(k + 1).len() == k + 1);
        assert(pieces.take(k + 1)[0] == pieces[0]);
        assert(pieces.take(k + 1).skip(1) =~= rest.take(k));
        assert(apply_pieces(base, pieces.take(k + 1)) == apply_pieces(base1, rest.take(k)));
        assert(pieces.take(k)[0] == pieces[0]);
        assert(pieces.take(k).skip(1) =~= rest.take(k - 1));
        assert(apply_pieces(base, pieces.take(k)) == apply_pieces(base1, rest.take(k - 1)));
        assert(rest[k - 1] == pieces[k]);
    }
}

/// Lexical resolution cannot invent a segment: starting from normal segments
/// and pieces free of separators, every segment of the result is normal.
pub proof fn lemma_apply_pieces_normal(base: Seq<Seq<char>>, pieces: Seq<Seq<char>>)
    requires
        all_normal(base),
        forall|k: int| 0 <= k < pieces.len() ==> !(#[trigger] pieces[k]).contains('/'),
    ensures
        all_normal(apply_pieces(base, pieces)),
    decreases pieces.len(),
{
    if pieces.len() == 0 {
    } else {
        let p = pieces[0];
        let base1 = apply_piece(base, p);
        assert(all_normal(base1)) by {
            if p.len() == 0 || p == seg_dot() {
            } else if p == seg_dotdot() {
                assert forall|i: int| 0 <= i < base1.len() implies is_normal_seg(
                    #[trigger] base1[i],
                ) by {
                    if base.len() > 0 {
                        assert(base1[i] == base[i]);
                    }
                }
            } else {
                assert(is_normal_seg(p));
                assert forall|i: int| 0 <= i < base1.len() implies is_normal_seg(
                    #[trigger] base1[i],
                ) by {
                    if i < base.len() {
                        assert(base1[i] == base[i]);
                    }
                }
            }
        }
        assert(forall|k: int| 0 <= k < pieces.skip(1).len() ==> !(#[trigger] pieces.skip(
            1,
        )[k]).contains('/')) by {
            assert(forall|k: int| 0 <= k < pieces.skip(1).len() ==> pieces.skip(1)[k] == pieces[k
                + 1]);
        }
        lemma_apply_pieces_normal(base1, pieces.skip(1));
    }
}

/// The index of the first separator in `s`, or its length if there is none.
fn find_first_slash(s: &str) -> (i: usize)
    ensures
        i == first_slash(s@),
{
    let n = s.unicode_len();
    let mut i: usize = 0;
    while i < n && s.get_char(i) != '/'
        invariant
            i <= n,
            n == s@.len(),
            forall|j: int| 0 <= j < i ==> s@[j] != '/',
        decreases n - i,
    {
        i += 1;
    }
    proof {
        lemma_first_slash(s@);
        let f = first_slash(s@) as int;
        if i < n {
            if f < i {
                assert(s@[f] == '/');
                assert(false);
            }
            if f > i {
                assert(s@[i as int] != '/');
                assert(false);
            }
        } else {
            if f < s@.len() {
                assert(s@[f] == '/');
                assert(false);
            }
        }
    }
    i
}

/// Splits a string at every separator; the pieces keep their order and may be
/// empty.
fn split_exec(s: &str) -> (r: Vec<String>)
    ensures
        r@.map_values(|x: String| x@) == split_slash(s@),
    decreases s@.len(),
{
    let n = s.unicode_len();
    let i = find_first_slash(s);
    proof {
        lemma_first_slash(s@);
    }
    if i >= n {
        let mut r: Vec<String> = Vec::new();
        r.push(s.to_owned());
        proof {
            assert(r@.map_values(|x: String| x@) =~= seq![s@]);
        }
        r
    } else {
        let head = s.substring_char(0, i).to_owned();
        let tail = s.substring_char(i + 1, n);
        let mut rest = split_exec(tail);
        rest.insert(0, head);
        proof {
            assert(tail@ =~= s@.skip(i as int + 1));
            assert(head@ =~= s@.take(i as int));
            assert(rest@.map_values(|x: String| x@) =~= seq![s@.take(i as int)] + split_slash(
                s@.skip(i as int + 1),
            ));
        }
        rest
    }
}

/// True when the piece is exactly `"."`.
fn piece_is_dot(p: &String) -> (r: bool)
    ensures
        r == (p@ == seg_dot()),
{
    let s = p.as_str();
    let n = s.unicode_len();
    if n == 1 && s.get_char(0) == '.' {
        proof {
            assert(p@ =~= seg_dot());
        }
        true
    } else {
        proof {
            if p@ == seg_dot() {
                assert(p@.len() == 1 && p@[0] == '.');
                assert(false);
            }
        }
        false
    }
}

/// True when the piece is exactly `".."`.
fn piece_is_dotdot(p: &String) -> (r: bool)
    ensures
        r == (p@ == seg_dotdot()),
{
    let s = p.as_str();
    let n = s.unicode_len();
    if n == 2 && s.get_char(0) == '.' && s.get_char(1) == '.' {
        proof {
            assert(p@ =~= seg_dotdot());
        }
        true
    } else {
        proof {
            if p@ == seg_dotdot() {
                assert(p@.len() == 2 && p@[0] == '.' && p@[1] == '.');
                assert(false);
            }
        }
        false
    }
}

/// True when the string is a normal path segment.
fn seg_is_normal(p: &String) -> (r: bool)
    ensures
        r == is_normal_seg(p@),
{
    let s = p.as_str();
    let n = s.unicode_len();
    if n == 0 {
        return false;
    }
    if piece_is_dot(p) {
        return false;
    }
    if piece_is_dotdot(p) {
        return false;
    }
    let mut i: usize = 0;
    while i < n
        invariant
            i <= n,
            n == s@.len(),
            s@ == p@,
            forall|j: int| 0 <= j < i ==> s@[j] != '/',
        decreases n - i,
    {
        if s.get_char(i) == '/' {
            assert(p@.contains('/'));
            return false;
        }
        i += 1;
    }
    proof {
        assert(forall|j: int| 0 <= j < p@.len() ==> p@[j] != '/');
        assert(!p@.contains('/'));
    }
    true
}

/// An absolute, already-canonical path, held as its segments.
#[derive(Clone, Debug)]
pub struct CanonPath {
    segs: Vec<String>,
}

impl View for CanonPath {
    type V = Seq<Seq<char>>;

    closed spec fn view(&self) -> Seq<Seq<char>> {
        self.segs@.map_values(|s: String| s@)
    }
}

impl CanonPath {
    /// Every segment is normal.
    pub open spec fn wf(self) -> bool {
        all_normal(self@)
    }

    /// The path with no segments: the filesystem root.
    pub fn fs_root() -> (r: Self)
        ensures
            r.wf(),
            r@ == Seq::<Seq<char>>::empty(),
    {
        let r = CanonPath { segs: Vec::new() };
        proof {
            assert(r@ =~= Seq::<Seq<char>>::empty());
        }
        r
    }

    /// A copy of this path.
    pub fn copy(&self) -> (r: Self)
        ensures
            r@ == self@,
    {
        let mut segs: Vec<String> = Vec::new();
        let mut i: usize = 0;
        while i < self.segs.len()
            invariant
                i <= self.segs@.len(),
                segs@.len() == i,
                forall|j: int| 0 <= j < i ==> segs@[j]@ == self.segs@[j]@,
            decreases self.segs@.len() - i,
        {
            segs.push(self.segs[i].clone());
            i += 1;
        }
        let r = CanonPath { segs };
        proof {
            assert(r@ =~~= self@);
        }
        r
    }

    /// The number of segments.
    pub fn depth(&self) -> (r: usize)
        ensures
            r == self@.len(),
    {
        self.segs.len()
    }

    /// This path extended by one more normal segment.
    pub fn child(&self, seg: String) -> (r: Self)
        requires
            is_normal_seg(seg@),
        ensures
            r@ == self@.push(seg@),
            self.wf() ==> r.wf(),
    {
        let mut p = self.copy();
        let ghost before = p@;
        p.segs.push(seg);
        proof {
            assert(p@ =~= before.push(seg@));
        }
        p
    }

    /// True when the two paths are segment-for-segment equal.
    pub fn same_as(&self, other: &Self) -> (r: bool)
        ensures
            r == (self@ == other@),
    {
        if self.segs.len() != other.segs.len() {
            assert(self@.len() != other@.len());
            return false;
        }
        let mut i: usize = 0;
        while i < self.segs.len()
            invariant
                i <= self.segs@.len(),
                self.segs@.len() == other.segs@.len(),
                forall|j: int| 0 <= j < i ==> self@[j] == other@[j],
            decreases self.segs@.len() - i,
        {
            if !self.segs[i].eq(&other.segs[i]) {
                assert(self@[i as int] != other@[i as int]);
                return false;
            }
            i += 1;
        }
        proof {
            assert(self@ =~= other@);
        }
        true
    }

    /// Parses an absolute canonical path string: a separator, then one or
    /// more normal segments joined by single separators. Anything else —
    /// relative, empty, doubled or trailing separators, `"."` or `".."`
    /// segments — is rejected.
    pub fn parse_abs(s: &str) -> (r: Option<Self>)
        ensures
            r is Some <==> is_canonical_abs(s@),
            r matches Some(p) ==> p.wf() && p@ == split_slash(s@.skip(1)),
    {
        let n = s.unicode_len();
        if n < 2 || s.get_char(0) != '/' {
            return None;
        }
        let rest = s.substring_char(1, n);
        assert(rest@ =~= s@.skip(1));
        let pieces = split_exec(rest);
        let ghost pview = pieces@.map_values(|x: String| x@);
        let mut i: usize = 0;
        while i < pieces.len()
            invariant
                i <= pieces@.len(),
                pview == pieces@.map_values(|x: String| x@),
                pview == split_slash(s@.skip(1)),
                forall|j: int| 0 <= j < i ==> is_normal_seg(#[trigger] pview[j]),
            decreases pieces@.len() - i,
        {
            if !seg_is_normal(&pieces[i]) {
                assert(!is_normal_seg(split_slash(s@.skip(1))[i as int]));
                assert(!is_canonical_abs(s@));
                return None;
            }
            i += 1;
        }
        let r = CanonPath { segs: pieces };
        proof {
            assert(r@ =~= pview);
            assert(all_normal(r@));
        }
        Some(r)
    }

    /// Resolves a requested name against this path taken as the confinement
    /// root. Resolution is lexical, as described in the module documentation;
    /// the result need not lie inside the root — confinement is checked
    /// separately.
    pub fn resolve(&self, name: &str) -> (r: Self)
        requires
            self.wf(),
        ensures
            r@ == resolve_under(self@, name@),
            r.wf(),
    {
        let n = name.unicode_len();
        let (mut cur, pieces) = if n > 0 && name.get_char(0) == '/' {
            let rest = name.substring_char(1, n);
            assert(rest@ =~= name@.skip(1));
            (Self::fs_root(), split_exec(rest))
        } else {
            (self.copy(), split_exec(name))
        };
        let ghost base = cur@;
        let ghost pview = pieces@.map_values(|x: String| x@);
        proof {
            if n > 0 && name@[0] == '/' {
                lemma_split_slash_no_slash(name@.skip(1));
            } else {
                lemma_split_slash_no_slash(name@);
            }
            assert(apply_pieces(base, pview.take(0)) =~= base) by {
                assert(pview.take(0) =~= Seq::<Seq<char>>::empty());
            }
        }
        let mut i: usize = 0;
        while i < pieces.len()
            invariant
                i <= pieces@.len(),
                pview == pieces@.map_values(|x: String| x@),
                forall|k: int| 0 <= k < pview.len() ==> !(#[trigger] pview[k]).contains('/'),
                cur@ == apply_pieces(base, pview.take(i as int)),
                all_normal(base),
                cur.wf(),
            decreases pieces@.len() - i,
        {
            let ghost prev = cur@;
            let piece = &pieces[i];
            let plen = piece.as_str().unicode_len();
            if plen == 0 {
                assert(pview[i as int].len() == 0);
            } else if piece_is_dot(piece) {
            } else if piece_is_dotdot(piece) {
                if cur.segs.len() > 0 {
                    let _last = cur.segs.pop();
                    assert(cur@ =~= prev.drop_last());
                } else {
                    assert(cur@.len() == 0);
                }
            } else {
                let seg = piece.clone();
                proof {
                    assert(is_normal_seg(pview[i as int]));
                }
                cur.segs.push(seg);
                assert(cur@ =~= prev.push(pview[i as int]));
            }
            proof {
                lemma_apply_pieces_snoc(base, pview, i as int);
                assert(cur@ == apply_pieces(base, pview.take(i as int + 1)));
                assert(forall|k: int| 0 <= k < pview.take(i as int + 1).len() ==> !(
                #[trigger] pview.take(i as int + 1)[k]).contains('/')) by {
                    assert(forall|k: int|
                        0 <= k < i as int + 1 ==> pview.take(i as int + 1)[k] == pview[k]);
                }
                lemma_apply_pieces_normal(base, pview.take(i as int + 1));
            }
            i += 1;
        }
        proof {
            assert(pview.take(pieces@.len() as int) =~= pview);
        }
        cur
    }

    /// True when `root` is a prefix of this path.
    pub fn starts_with_path(&self, root: &Self) -> (r: bool)
        ensures
            r == is_prefix_of(root@, self@),
    {
        if self.segs.len() < root.segs.len() {
            return false;
        }
        let mut i: usize = 0;
        while i < root.segs.len()
            invariant
                i <= root.segs@.len() <= self.segs@.len(),
                forall|j: int| 0 <= j < i ==> self@[j] == root@[j],
            decreases root.segs@.len() - i,
        {
            if !self.segs[i].eq(&root.segs[i]) {
                assert(self@[i as int] != root@[i as int]);
                assert(!is_prefix_of(root@, self@)) by {
                    if is_prefix_of(root@, self@) {
                        assert(self@.subrange(0, root@.len() as int)[i as int] == root@[i as int]);
                    }
                }
                return false;
            }
            i += 1;
        }
        proof {
            assert(self@.subrange(0, root@.len() as int) =~= root@);
        }
        true
    }
}

} // verus!
