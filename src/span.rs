//! Half-open ranges of addresses.
use vstd::prelude::*;

verus! {

/// The range of addresses `[begin, end)`.
#[derive(Clone, Copy, Debug, PartialEq, Eq, Structural)]
pub struct Span {
    begin: usize,
    end: usize,
}

impl Span {
    #[verifier::type_invariant]
    spec fn ordered(self) -> bool {
        self.begin <= self.end
    }

    /// First address of the range.
    pub closed spec fn lo(self) -> usize {
        self.begin
    }

    /// First address past the range.
    pub closed spec fn hi(self) -> usize {
        self.end
    }

    /// Makes a new span.
    pub fn new(begin: usize, end: usize) -> (r: Span)
        requires
            begin <= end,
        ensures
            r.lo() == begin,
            r.hi() == end,
    {
        Span { begin, end }
    }

    /// The part shared by both spans, if it is not empty.
    pub fn intersect(&self, other: Span) -> (r: Option<Span>)
        ensures
            r is Some <==> (if self.lo() >= other.lo() {
                self.lo()
            } else {
                other.lo()
            }) < (if self.hi() <= other.hi() {
                self.hi()
            } else {
                other.hi()
            }),
            r is Some ==> r->0.lo() == (if self.lo() >= other.lo() {
                self.lo()
            } else {
                other.lo()
            }) && r->0.hi() == (if self.hi() <= other.hi() {
                self.hi()
            } else {
                other.hi()
            }),
    {
        let smol_begin = if self.begin >= other.begin {
            self.begin
        } else {
            other.begin
        };
        let smol_end = if self.end <= other.end {
            self.end
        } else {
            other.end
        };
        if smol_begin >= smol_end {
            None
        } else {
            Some(Span { begin: smol_begin, end: smol_end })
        }
    }

    /// Merges two contiguous or overlapping spans into one; `None` if there is
    /// a gap between them.
    pub fn merge(&self, other: Span) -> (r: Option<Span>)
        ensures
            r is Some <==> (if self.lo() >= other.lo() {
                self.lo()
            } else {
                other.lo()
            }) <= (if self.hi() <= other.hi() {
                self.hi()
            } else {
                other.hi()
            }),
            r is Some ==> r->0.lo() == (if self.lo() <= other.lo() {
                self.lo()
            } else {
                other.lo()
            }) && r->0.hi() == (if self.hi() >= other.hi() {
                self.hi()
            } else {
                other.hi()
            }),
    {
        proof {
            use_type_invariant(self);
            use_type_invariant(other);
        }
        let max_begin = if self.begin >= other.begin {
            self.begin
        } else {
            other.begin
        };
        let min_end = if self.end <= other.end {
            self.end
        } else {
            other.end
        };
        if max_begin > min_end {
            None
        } else {
            let b = if self.begin <= other.begin {
                self.begin
            } else {
                other.begin
            };
            let e = if self.end >= other.end {
                self.end
            } else {
                other.end
            };
            Some(Span { begin: b, end: e })
        }
    }

    /// Moves both ends of the span by `offs`.
    pub fn offset(&self, offs: isize) -> (r: Span)
        requires
            self.hi() <= isize::MAX,
            0 <= self.lo() + offs,
            self.hi() + offs <= isize::MAX,
        ensures
            r.lo() == self.lo() + offs,
            r.hi() == self.hi() + offs,
    {
        proof {
            use_type_invariant(self);
        }
        Span { begin: (self.begin as isize + offs) as usize, end: (self.end as isize + offs) as usize }
    }

    /// Gets the start of the range.
    pub fn begin(&self) -> (r: usize)
        ensures
            r == self.lo(),
    {
        self.begin
    }

    /// Gets the end of the range.
    pub fn end(&self) -> (r: usize)
        ensures
            r == self.hi(),
    {
        self.end
    }

    /// Length of the range.
    pub fn len(&self) -> (r: usize)
        ensures
            r == self.hi() - self.lo(),
    {
        proof {
            use_type_invariant(self);
        }
        self.end - self.begin
    }

    /// Does the range contain the given address?
    pub fn contains(&self, addr: usize) -> (r: bool)
        ensures
            r == (self.lo() <= addr && addr < self.hi()),
    {
        self.begin <= addr && addr < self.end
    }
}

} // verus!
