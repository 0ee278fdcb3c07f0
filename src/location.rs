use vstd::prelude::*;

verus! {

/// A logical address in a document: zero-based line, and column within it.
#[derive(Clone, Copy, PartialEq, Eq, Structural, Debug)]
pub struct Location {
    pub ln: u32,
    pub col: u32,
}

/// The strict order of locations: by line, then by column.
pub open spec fn loc_lt(a: Location, b: Location) -> bool {
    a.ln < b.ln || (a.ln == b.ln && a.col < b.col)
}

/// `a <= b` in the order of locations.
pub open spec fn loc_le(a: Location, b: Location) -> bool {
    loc_lt(a, b) || a == b
}

/// Which of `a < b`, `a == b`, `a > b` holds.
pub open spec fn loc_cmp(a: Location, b: Location) -> core::cmp::Ordering {
    if loc_lt(a, b) {
        core::cmp::Ordering::Less
    } else if loc_lt(b, a) {
        core::cmp::Ordering::Greater
    } else {
        core::cmp::Ordering::Equal
    }
}

impl Location {
    /// Whether `self` comes strictly before `other`.
    pub fn precedes(&self, other: &Location) -> (r: bool)
        ensures
            r == loc_lt(*self, *other),
    {
        self.ln < other.ln || (self.ln == other.ln && self.col < other.col)
    }
}

impl PartialOrd for Location {
    fn partial_cmp(&self, other: &Location) -> (r: Option<core::cmp::Ordering>) {
        if self.precedes(other) {
            Some(core::cmp::Ordering::Less)
        } else if other.precedes(self) {
            Some(core::cmp::Ordering::Greater)
        } else {
            Some(core::cmp::Ordering::Equal)
        }
    }
}

impl vstd::std_specs::cmp::PartialOrdSpecImpl for Location {
    open spec fn obeys_partial_cmp_spec() -> bool {
        true
    }

    open spec fn partial_cmp_spec(&self, other: &Location) -> Option<core::cmp::Ordering> {
        Some(loc_cmp(*self, *other))
    }
}

/// The order of locations is a strict total order: for any two, exactly one
/// of `a < b`, `a == b`, `b < a` holds, and `<` is transitive.
pub proof fn lemma_location_total_order(a: Location, b: Location, c: Location)
    ensures
        loc_lt(a, b) || a == b || loc_lt(b, a),
        !(loc_lt(a, b) && a == b),
        !(loc_lt(a, b) && loc_lt(b, a)),
        !loc_lt(a, a),
        loc_lt(a, b) && loc_lt(b, c) ==> loc_lt(a, c),
{
}

/// A half-open interval `[start, end)` of locations.
#[derive(Clone, Copy, PartialEq, Eq, Structural, Debug)]
pub struct Range {
    pub start: Location,
    pub end: Location,
}

/// Whether `l` lies in the half-open interval of `r`.
pub open spec fn in_range(r: Range, l: Location) -> bool {
    loc_le(r.start, l) && loc_lt(l, r.end)
}

impl Range {
    pub fn new(start: Location, end: Location) -> (r: Range)
        ensures
            r == (Range { start, end }),
    {
        Range { start, end }
    }

    /// Whether `l` lies in `[start, end)`.
    pub fn contains(&self, l: &Location) -> (r: bool)
        ensures
            r == in_range(*self, *l),
    {
        (!l.precedes(&self.start)) && l.precedes(&self.end)
    }
}

} // verus!
