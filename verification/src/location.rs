use core::cmp::Ordering;
use vstd::prelude::*;
use vstd::std_specs::cmp::PartialEqSpecImpl;
use vstd::std_specs::cmp::PartialOrdSpecImpl;
use vstd::std_specs::convert::FromSpecImpl;

verus! {

/// A position in a buffer: a line index and a column (character) index.
#[derive(Clone, Copy, Eq, Hash, Default, Debug, Ord)]
pub struct Location {
    line: usize,
    col: usize,
}

/// The lexicographic order on positions: first by line, then by column.
pub open spec fn loc_lt(a: Location, b: Location) -> bool {
    a.line_spec() < b.line_spec() || (a.line_spec() == b.line_spec() && a.col_spec()
        < b.col_spec())
}

/// The three-way comparison that `partial_cmp` computes.
pub open spec fn loc_order(a: Location, b: Location) -> Ordering {
    if loc_lt(a, b) {
        Ordering::Less
    } else if a == b {
        Ordering::Equal
    } else {
        Ordering::Greater
    }
}

impl Location {
    pub closed spec fn line_spec(self) -> usize {
        self.line
    }

    pub closed spec fn col_spec(self) -> usize {
        self.col
    }

    /// The location with the given line and column.
    pub closed spec fn mk(line: usize, col: usize) -> Location {
        Location { line, col }
    }

    pub broadcast proof fn lemma_mk(line: usize, col: usize)
        ensures
            #[trigger] Location::mk(line, col).line_spec() == line,
            Location::mk(line, col).col_spec() == col,
    {
    }

    pub fn new(line: usize, col: usize) -> (r: Self)
        ensures
            r.line_spec() == line,
            r.col_spec() == col,
            r == Location::mk(line, col),
    {
        Self { line, col }
    }

    pub fn line(&self) -> (r: usize)
        ensures
            r == self.line_spec(),
    {
        self.line
    }

    pub fn col(&self) -> (r: usize)
        ensures
            r == self.col_spec(),
    {
        self.col
    }

    pub fn destruct(&self) -> (r: (usize, usize))
        ensures
            r == (self.line_spec(), self.col_spec()),
    {
        (self.line, self.col)
    }

    /// Whether `self` comes strictly before `other`.
    pub fn is_before(&self, other: &Location) -> (r: bool)
        ensures
            r == loc_lt(*self, *other),
    {
        self.line < other.line || (self.line == other.line && self.col < other.col)
    }

    /// The lexicographic order on locations is irreflexive.
    pub proof fn law_lt_irreflexive(a: Location)
        ensures
            !loc_lt(a, a),
    {
    }

    /// The lexicographic order on locations is transitive.
    pub proof fn law_lt_transitive(a: Location, b: Location, c: Location)
        requires
            loc_lt(a, b),
            loc_lt(b, c),
        ensures
            loc_lt(a, c),
    {
    }

    /// Any two locations are ordered one way or the other, or are equal.
    pub proof fn law_lt_total(a: Location, b: Location)
        ensures
            loc_lt(a, b) || loc_lt(b, a) || a == b,
    {
    }
}

impl PartialEq for Location {
    fn eq(&self, other: &Self) -> (r: bool) {
        self.line == other.line && self.col == other.col
    }
}

impl PartialEqSpecImpl for Location {
    open spec fn obeys_eq_spec() -> bool {
        true
    }

    open spec fn eq_spec(&self, other: &Location) -> bool {
        self.line_spec() == other.line_spec() && self.col_spec() == other.col_spec()
    }
}

impl PartialOrd for Location {
    fn partial_cmp(&self, other: &Self) -> (r: Option<Ordering>) {
        if self.line < other.line || (self.line == other.line && self.col < other.col) {
            Some(Ordering::Less)
        } else if self.line == other.line && self.col == other.col {
            Some(Ordering::Equal)
        } else {
            Some(Ordering::Greater)
        }
    }
}

impl PartialOrdSpecImpl for Location {
    open spec fn obeys_partial_cmp_spec() -> bool {
        true
    }

    open spec fn partial_cmp_spec(&self, other: &Location) -> Option<Ordering> {
        Some(loc_order(*self, *other))
    }
}

impl From<(usize, usize)> for Location {
    fn from(v: (usize, usize)) -> (r: Self) {
        Self::new(v.0, v.1)
    }
}

impl FromSpecImpl<(usize, usize)> for Location {
    open spec fn obeys_from_spec() -> bool {
        true
    }

    open spec fn from_spec(v: (usize, usize)) -> Location {
        Location::mk(v.0, v.1)
    }
}

} // verus!
