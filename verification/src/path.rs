use vstd::prelude::*;

verus! {

/// String equality by content; `String`'s own comparison carries a
/// specification, the one on references does not.
pub fn str_eq(a: &String, b: &String) -> (r: bool)
    ensures
        r == (a@ == b@),
{
    a.eq(b)
}

/// One addressing step into a response tree: an object key, an array index,
/// or a flatten marker standing for "every element of the array here".
#[derive(Debug)]
pub enum PathElement {
    Key(String),
    Index(usize),
    Flatten,
}

/// Ghost form of a path element.
pub enum SpecPathElement {
    Key(Seq<char>),
    Index(int),
    Flatten,
}

impl View for PathElement {
    type V = SpecPathElement;

    open spec fn view(&self) -> SpecPathElement {
        match self {
            PathElement::Key(k) => SpecPathElement::Key(k@),
            PathElement::Index(i) => SpecPathElement::Index(*i as int),
            PathElement::Flatten => SpecPathElement::Flatten,
        }
    }
}

impl PathElement {
    pub fn clone_elem(&self) -> (r: PathElement)
        ensures
            r@ == self@,
    {
        match self {
            PathElement::Key(k) => PathElement::Key(k.clone()),
            PathElement::Index(i) => PathElement::Index(*i),
            PathElement::Flatten => PathElement::Flatten,
        }
    }

    pub fn eq_elem(&self, other: &PathElement) -> (r: bool)
        ensures
            r == (self@ == other@),
    {
        match (self, other) {
            (PathElement::Key(a), PathElement::Key(b)) => str_eq(a, b),
            (PathElement::Index(a), PathElement::Index(b)) => a == b,
            (PathElement::Flatten, PathElement::Flatten) => true,
            _ => false,
        }
    }

    pub fn is_flatten(&self) -> (r: bool)
        ensures
            r == (self@ == SpecPathElement::Flatten),
    {
        match self {
            PathElement::Flatten => true,
            _ => false,
        }
    }
}

/// An ordered sequence of addressing steps into a response tree.  Paths
/// support prefix testing, concatenation and slicing, which is all the
/// stitcher needs to remap errors and graft partial values.
#[derive(Debug)]
pub struct Path(pub Vec<PathElement>);

impl View for Path {
    type V = Seq<SpecPathElement>;

    open spec fn view(&self) -> Seq<SpecPathElement> {
        Seq::new(self.0.len() as nat, |i: int| self.0@[i]@)
    }
}

impl Path {
    pub fn empty() -> (r: Path)
        ensures
            r@ =~= Seq::<SpecPathElement>::empty(),
    {
        Path(Vec::new())
    }

    pub fn is_empty(&self) -> (r: bool)
        ensures
            r == (self@.len() == 0),
    {
        self.0.len() == 0
    }

    pub fn len(&self) -> (r: usize)
        ensures
            r == self@.len(),
    {
        self.0.len()
    }

    pub fn last(&self) -> (r: Option<&PathElement>)
        ensures
            self@.len() == 0 ==> r is None,
            self@.len() > 0 ==> r is Some && r->0@ == self@.last(),
    {
        if self.0.len() == 0 {
            None
        } else {
            Some(&self.0[self.0.len() - 1])
        }
    }

    pub fn clone_path(&self) -> (r: Path)
        ensures
            r@ == self@,
    {
        let mut out: Vec<PathElement> = Vec::new();
        let mut i: usize = 0;
        while i < self.0.len()
            invariant
                i <= self.0.len(),
                out@.len() == i,
                forall|j: int| 0 <= j < i ==> out@[j]@ == self@[j],
            decreases self.0.len() - i,
        {
            out.push(self.0[i].clone_elem());
            i = i + 1;
        }
        let r = Path(out);
        proof {
            assert(r@ =~= self@);
        }
        r
    }

    pub fn eq_path(&self, other: &Path) -> (r: bool)
        ensures
            r == (self@ == other@),
    {
        if self.0.len() != other.0.len() {
            proof {
                assert(self@.len() != other@.len());
            }
            return false;
        }
        let mut i: usize = 0;
        while i < self.0.len()
            invariant
                i <= self.0.len(),
                self.0.len() == other.0.len(),
                forall|j: int| 0 <= j < i ==> self@[j] == other@[j],
            decreases self.0.len() - i,
        {
            if !self.0[i].eq_elem(&other.0[i]) {
                proof {
                    assert(self@[i as int] != other@[i as int]);
                }
                return false;
            }
            i = i + 1;
        }
        proof {
            assert(self@ =~= other@);
        }
        true
    }

    /// Prefix test: does `self` begin with every element of `prefix`?
    pub fn starts_with(&self, prefix: &Path) -> (r: bool)
        ensures
            r == prefix@.is_prefix_of(self@),
    {
        if self.0.len() < prefix.0.len() {
            proof {
                assert(!prefix@.is_prefix_of(self@));
            }
            return false;
        }
        let mut i: usize = 0;
        while i < prefix.0.len()
            invariant
                i <= prefix.0.len(),
                prefix.0.len() <= self.0.len(),
                forall|j: int| 0 <= j < i ==> self@[j] == prefix@[j],
            decreases prefix.0.len() - i,
        {
            if !self.0[i].eq_elem(&prefix.0[i]) {
                proof {
                    assert(self@[i as int] != prefix@[i as int]);
                }
                return false;
            }
            i = i + 1;
        }
        proof {
            assert(prefix@ =~= self@.subrange(0, prefix@.len() as int));
        }
        true
    }

    /// A copy of `self` followed by the elements of `tail` from position
    /// `start` on.  The stitcher uses this to rewrite an entity error path
    /// to `original_path + remainder_after_index`.
    pub fn concat_from(&self, tail: &Path, start: usize) -> (r: Path)
        requires
            start <= tail@.len(),
        ensures
            r@ == self@ + tail@.subrange(start as int, tail@.len() as int),
    {
        let mut out = self.clone_path();
        let mut i: usize = start;
        while i < tail.0.len()
            invariant
                start <= i <= tail.0.len(),
                out.0@.len() == self@.len() + i - start,
                forall|j: int| 0 <= j < self@.len() ==> out.0@[j]@ == self@[j],
                forall|j: int| self@.len() <= j < out.0@.len() ==> out.0@[j]@ == tail@[
                    start + j - self@.len()
                ],
            decreases tail.0.len() - i,
        {
            out.0.push(tail.0[i].clone_elem());
            i = i + 1;
        }
        proof {
            assert(out@ =~= self@ + tail@.subrange(start as int, tail@.len() as int));
        }
        out
    }

    pub fn push(&mut self, elem: PathElement)
        ensures
            final(self)@ == old(self)@.push(elem@),
    {
        self.0.push(elem);
        proof {
            assert(final(self)@ =~= old(self)@.push(elem@));
        }
    }

    /// The path without a trailing flatten marker; unchanged when the last
    /// element is not a flatten marker.  Used by the plain regime, where the
    /// flatten is conceptual only and the merge target is its parent array.
    pub fn trim_trailing_flatten(&self) -> (r: Path)
        ensures
            self@.len() > 0 && self@.last() == SpecPathElement::Flatten ==> r@ == self@.drop_last(),
            !(self@.len() > 0 && self@.last() == SpecPathElement::Flatten) ==> r@ == self@,
    {
        let n = self.0.len();
        let trim = if n > 0 { self.0[n - 1].is_flatten() } else { false };
        let mut out: Vec<PathElement> = Vec::new();
        let end: usize = if trim { n - 1 } else { n };
        let mut i: usize = 0;
        while i < end
            invariant
                i <= end,
                end <= self.0.len(),
                out@.len() == i,
                forall|j: int| 0 <= j < i ==> out@[j]@ == self@[j],
            decreases end - i,
        {
            out.push(self.0[i].clone_elem());
            i = i + 1;
        }
        let r = Path(out);
        proof {
            if trim {
                assert(r@ =~= self@.drop_last());
            } else {
                assert(r@ =~= self@);
            }
        }
        r
    }
}

} // verus!
