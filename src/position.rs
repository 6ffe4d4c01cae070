use vstd::prelude::*;

verus! {

/// A logical position: a line index and a byte offset within that line.
#[derive(Clone, Copy, Debug, PartialEq, Eq, Structural, PartialOrd, Ord, Hash, Default)]
pub struct Point {
    pub line: usize,
    pub byte: usize,
}

/// The distance between two points: a number of line breaks, then the
/// bytes on the last line.
#[derive(Clone, Copy, Debug, PartialEq, Eq, Structural, Hash, Default)]
pub struct Extent {
    pub line_count: usize,
    pub byte_count: usize,
}

/// A span of text from `start` to `end`, with `start` not after `end`.
#[derive(Clone, Copy, Debug, PartialEq, Eq, Structural, Hash, Default)]
pub struct Range {
    pub start: Point,
    pub end: Point,
}

/// Lexicographic order on points: by line, then by byte.
pub open spec fn point_lt(a: Point, b: Point) -> bool {
    a.line < b.line || (a.line == b.line && a.byte < b.byte)
}

pub open spec fn point_le(a: Point, b: Point) -> bool {
    point_lt(a, b) || a == b
}

pub open spec fn point_min(a: Point, b: Point) -> Point {
    if point_le(a, b) { a } else { b }
}

pub open spec fn point_max(a: Point, b: Point) -> Point {
    if point_le(a, b) { b } else { a }
}

/// The extent that leads from `start` to `end`.
pub open spec fn extent_between(start: Point, end: Point) -> Extent {
    if start.line == end.line {
        Extent { line_count: 0, byte_count: (end.byte - start.byte) as usize }
    } else {
        Extent { line_count: (end.line - start.line) as usize, byte_count: end.byte }
    }
}

impl Point {
    /// Whether `self` comes strictly before `other`.
    pub fn lt(self, other: Point) -> (r: bool)
        ensures
            r == point_lt(self, other),
    {
        self.line < other.line || (self.line == other.line && self.byte < other.byte)
    }

    /// Whether `self` comes before `other` or is it.
    pub fn le(self, other: Point) -> (r: bool)
        ensures
            r == point_le(self, other),
    {
        self.line < other.line || (self.line == other.line && self.byte <= other.byte)
    }

    /// The earlier of the two points.
    pub fn min(self, other: Point) -> (r: Point)
        ensures
            r == point_min(self, other),
    {
        if self.le(other) { self } else { other }
    }

    /// The later of the two points.
    pub fn max(self, other: Point) -> (r: Point)
        ensures
            r == point_max(self, other),
    {
        if self.le(other) { other } else { self }
    }

    /// The extent from `start` to `self`, which must not come before it.
    pub fn sub(self, start: Point) -> (r: Extent)
        requires
            point_le(start, self),
        ensures
            r == extent_between(start, self),
    {
        if start.line == self.line {
            Extent { line_count: 0, byte_count: self.byte - start.byte }
        } else {
            Extent { line_count: self.line - start.line, byte_count: self.byte }
        }
    }
}

impl Range {
    /// A range from `start` to `end`, or `None` when `end` comes first.
    pub fn new(start: Point, end: Point) -> (r: Option<Range>)
        ensures
            r == (if point_le(start, end) {
                Some(Range { start, end })
            } else {
                None::<Range>
            }),
    {
        if start.le(end) {
            Some(Range { start, end })
        } else {
            None
        }
    }
}

} // verus!
