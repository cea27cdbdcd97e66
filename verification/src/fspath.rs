//! A model of filesystem paths as sequences of name segments.
//!
//! Discovery and grading reason about paths purely through this type; the
//! surrounding program converts to and from its platform path type at the
//! boundary.

use vstd::prelude::*;
use crate::text::{chars_le, lemma_chars_le_antisym, lemma_chars_le_total, lemma_chars_le_trans,
    str_eq, str_le};

verus! {

/// A filesystem path, as the ordered list of its name segments.
pub struct FsPath {
    pub segments: Vec<String>,
}

impl View for FsPath {
    type V = Seq<Seq<char>>;

    open spec fn view(&self) -> Seq<Seq<char>> {
        self.segments.deep_view()
    }
}

impl DeepView for FsPath {
    type V = Seq<Seq<char>>;

    open spec fn deep_view(&self) -> Seq<Seq<char>> {
        self.view()
    }
}

/// Some segment of `p` equals `seg`.
pub open spec fn path_contains_seg(p: Seq<Seq<char>>, seg: Seq<char>) -> bool {
    exists|i: int| 0 <= i < p.len() && p[i] == seg
}

/// `p` lies strictly below the directory `base`.
pub open spec fn path_under(p: Seq<Seq<char>>, base: Seq<Seq<char>>) -> bool {
    base.len() < p.len() && p.take(base.len() as int) == base
}

/// Lexicographic order on paths: segment by segment, each segment ordered
/// as a character sequence.
pub open spec fn segs_le(a: Seq<Seq<char>>, b: Seq<Seq<char>>) -> bool
    decreases a.len(),
{
    if a.len() == 0 {
        true
    } else if b.len() == 0 {
        false
    } else if a[0] == b[0] {
        segs_le(a.drop_first(), b.drop_first())
    } else {
        chars_le(a[0], b[0])
    }
}

/// The path order relates every pair of paths.
pub proof fn lemma_segs_le_total(a: Seq<Seq<char>>, b: Seq<Seq<char>>)
    ensures
        segs_le(a, b) || segs_le(b, a),
    decreases a.len(),
{
    if a.len() != 0 && b.len() != 0 {
        if a[0] == b[0] {
            lemma_segs_le_total(a.drop_first(), b.drop_first());
        } else {
            lemma_chars_le_total(a[0], b[0]);
        }
    }
}

/// The path order is antisymmetric.
pub proof fn lemma_segs_le_antisym(a: Seq<Seq<char>>, b: Seq<Seq<char>>)
    requires
        segs_le(a, b),
        segs_le(b, a),
    ensures
        a == b,
    decreases a.len(),
{
    if a.len() == 0 {
        assert(b.len() == 0);
        assert(a =~= b);
    } else {
        assert(b.len() != 0);
        if a[0] != b[0] {
            lemma_chars_le_antisym(a[0], b[0]);
            assert(false);
        }
        lemma_segs_le_antisym(a.drop_first(), b.drop_first());
        assert(a.len() == b.len()) by {
            assert(a.drop_first().len() == b.drop_first().len());
        }
        assert forall|i: int| 0 <= i < a.len() implies a[i] == b[i] by {
            if i > 0 {
                assert(a.drop_first()[i - 1] == b.drop_first()[i - 1]);
            }
        }
        assert(a =~= b);
    }
}

/// The path order is transitive.
pub proof fn lemma_segs_le_trans(a: Seq<Seq<char>>, b: Seq<Seq<char>>, c: Seq<Seq<char>>)
    requires
        segs_le(a, b),
        segs_le(b, c),
    ensures
        segs_le(a, c),
    decreases a.len(),
{
    if a.len() != 0 && b.len() != 0 && c.len() != 0 {
        if a[0] == b[0] && b[0] == c[0] {
            lemma_segs_le_trans(a.drop_first(), b.drop_first(), c.drop_first());
        } else if a[0] == b[0] {
            // heads a and b agree, head c differs
        } else if b[0] == c[0] {
            // heads b and c agree, head a differs
        } else {
            lemma_chars_le_trans(a[0], b[0], c[0]);
            if a[0] == c[0] {
                lemma_chars_le_antisym(a[0], b[0]);
                assert(false);
            }
        }
    }
}

/// The directory that a discovered unit's path must sit in, one level up.
pub open spec fn spec_parent(p: Seq<Seq<char>>) -> Seq<Seq<char>>
    recommends
        p.len() > 0,
{
    p.drop_last()
}

/// The nearest ancestor of `p` (including `p` itself) whose final segment
/// is `name`, if any.
pub open spec fn spec_ancestor_ending_in(p: Seq<Seq<char>>, name: Seq<char>) -> Option<
    Seq<Seq<char>>,
>
    decreases p.len(),
{
    if p.len() == 0 {
        None
    } else if p.last() == name {
        Some(p)
    } else {
        spec_ancestor_ending_in(p.drop_last(), name)
    }
}

impl FsPath {
    /// The empty path, with no segments.
    pub fn empty() -> (r: FsPath)
        ensures
            r@ == Seq::<Seq<char>>::empty(),
    {
        let r = FsPath { segments: Vec::new() };
        assert(r@ =~= Seq::<Seq<char>>::empty());
        r
    }

    /// A segment-for-segment copy of this path.
    pub fn duplicate(&self) -> (r: FsPath)
        ensures
            r@ == self@,
    {
        let mut segs: Vec<String> = Vec::new();
        let mut i: usize = 0;
        while i < self.segments.len()
            invariant
                i <= self.segments.len(),
                segs@ == self.segments@.take(i as int),
            decreases self.segments.len() - i,
        {
            segs.push(self.segments[i].clone());
            assert(segs@ =~= self.segments@.take(i + 1));
            i = i + 1;
        }
        assert(segs@ =~= self.segments@);
        let r = FsPath { segments: segs };
        assert(r@ =~= self@);
        r
    }

    /// This path extended by one further segment.
    pub fn join(&self, seg: &str) -> (r: FsPath)
        ensures
            r@ == self@.push(seg@),
    {
        let mut r = self.duplicate();
        r.segments.push(String::from_str(seg));
        assert(r@ =~= self@.push(seg@));
        r
    }

    /// The number of segments.
    pub fn depth(&self) -> (r: usize)
        ensures
            r == self@.len(),
    {
        self.segments.len()
    }

    /// The final segment, if the path has one.
    pub fn file_name(&self) -> (r: Option<&String>)
        ensures
            match r {
                Some(s) => self@.len() > 0 && s@ == self@.last(),
                None => self@.len() == 0,
            },
    {
        if self.segments.len() == 0 {
            None
        } else {
            Some(&self.segments[self.segments.len() - 1])
        }
    }

    /// Whether the final segment equals `name`.
    pub fn last_is(&self, name: &str) -> (r: bool)
        ensures
            r == (self@.len() > 0 && self@.last() == name@),
    {
        if self.segments.len() == 0 {
            false
        } else {
            str_eq(self.segments[self.segments.len() - 1].as_str(), name)
        }
    }

    /// The path with its final segment removed.
    pub fn parent(&self) -> (r: FsPath)
        requires
            self@.len() > 0,
        ensures
            r@ == spec_parent(self@),
    {
        let mut r = self.duplicate();
        let _popped = r.segments.pop();
        assert(r@ =~= self@.drop_last());
        r
    }

    /// Whether any segment equals `seg`.
    pub fn contains_seg(&self, seg: &str) -> (r: bool)
        ensures
            r == path_contains_seg(self@, seg@),
    {
        let mut i: usize = 0;
        while i < self.segments.len()
            invariant
                i <= self.segments.len(),
                forall|j: int| 0 <= j < i ==> self@[j] != seg@,
            decreases self.segments.len() - i,
        {
            if str_eq(self.segments[i].as_str(), seg) {
                assert(self@[i as int] == seg@);
                return true;
            }
            i = i + 1;
        }
        false
    }

    /// Whether this path lies strictly below the directory `base`.
    pub fn is_under(&self, base: &FsPath) -> (r: bool)
        ensures
            r == path_under(self@, base@),
    {
        let bn = base.segments.len();
        if bn >= self.segments.len() {
            return false;
        }
        let mut i: usize = 0;
        while i < bn
            invariant
                i <= bn,
                bn < self.segments.len(),
                bn == base@.len(),
                forall|j: int| 0 <= j < i ==> self@[j] == base@[j],
            decreases bn - i,
        {
            if !str_eq(self.segments[i].as_str(), base.segments[i].as_str()) {
                assert(!path_under(self@, base@)) by {
                    assert(self@.take(bn as int)[i as int] != base@[i as int]);
                }
                return false;
            }
            i = i + 1;
        }
        assert(self@.take(bn as int) =~= base@);
        true
    }

    /// Segment-for-segment equality of two paths.
    pub fn path_eq(&self, other: &FsPath) -> (r: bool)
        ensures
            r == (self@ == other@),
    {
        let n = self.segments.len();
        if n != other.segments.len() {
            assert(self@.len() != other@.len());
            return false;
        }
        let mut i: usize = 0;
        while i < n
            invariant
                i <= n,
                n == self@.len(),
                n == other@.len(),
                forall|j: int| 0 <= j < i ==> self@[j] == other@[j],
            decreases n - i,
        {
            if !str_eq(self.segments[i].as_str(), other.segments[i].as_str()) {
                assert(self@[i as int] != other@[i as int]);
                return false;
            }
            i = i + 1;
        }
        assert(self@ =~= other@);
        true
    }

    /// Decides the lexicographic path order.
    pub fn path_le(&self, other: &FsPath) -> (r: bool)
        ensures
            r == segs_le(self@, other@),
    {
        let an = self.segments.len();
        let bn = other.segments.len();
        let mut i: usize = 0;
        assert(self@.skip(0) =~= self@);
        assert(other@.skip(0) =~= other@);
        loop
            invariant
                i <= an,
                i <= bn,
                an == self@.len(),
                bn == other@.len(),
                segs_le(self@, other@) == segs_le(self@.skip(i as int), other@.skip(i as int)),
            decreases an - i,
        {
            if i == an {
                assert(self@.skip(i as int).len() == 0);
                return true;
            }
            if i == bn {
                assert(other@.skip(i as int).len() == 0);
                assert(self@.skip(i as int).len() != 0);
                return false;
            }
            assert(self@.skip(i as int)[0] == self@[i as int]);
            assert(other@.skip(i as int)[0] == other@[i as int]);
            if str_eq(self.segments[i].as_str(), other.segments[i].as_str()) {
                assert(self@.skip(i as int).drop_first() =~= self@.skip(i + 1));
                assert(other@.skip(i as int).drop_first() =~= other@.skip(i + 1));
                i = i + 1;
            } else {
                return str_le(self.segments[i].as_str(), other.segments[i].as_str());
            }
        }
    }

    /// The nearest ancestor (this path included) whose final segment is
    /// `name`, if any.
    pub fn ancestor_ending_in(&self, name: &str) -> (r: Option<FsPath>)
        ensures
            match r {
                Some(p) => spec_ancestor_ending_in(self@, name@) == Some(p@),
                None => spec_ancestor_ending_in(self@, name@) is None,
            },
    {
        let mut cur = self.duplicate();
        loop
            invariant
                spec_ancestor_ending_in(self@, name@) == spec_ancestor_ending_in(cur@, name@),
            decreases cur@.len(),
        {
            if cur.segments.len() == 0 {
                return None;
            }
            if str_eq(cur.segments[cur.segments.len() - 1].as_str(), name) {
                assert(cur@.last() == name@);
                return Some(cur);
            }
            assert(cur@.last() != name@);
            let ghost prev = cur@;
            let _popped = cur.segments.pop();
            proof {
                assert(cur@ =~= prev.drop_last());
            }
        }
    }
}

} // verus!
