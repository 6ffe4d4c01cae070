use vstd::prelude::*;
use crate::position::{
    Point, Extent, Range, point_lt, point_le, point_min, point_max, extent_between,
};
use crate::text::{Change, change_point, sat_add};

verus! {

/// Which side of a soft-wrap seam a position sits on.
#[derive(Clone, Copy, Debug, PartialEq, Eq, Structural, Hash)]
pub enum Affinity {
    Before,
    After,
}

impl Default for Affinity {
    fn default() -> (r: Affinity)
        ensures
            r == Affinity::Before,
    {
        Affinity::Before
    }
}

/// An anchor and a moving cursor, with the cursor's affinity and the
/// visual column that vertical moves aim for.
#[derive(Clone, Copy, Debug, PartialEq, Eq, Structural, Hash)]
pub struct Selection {
    pub anchor: Point,
    pub cursor: Point,
    pub affinity: Affinity,
    pub preferred_column: Option<usize>,
}

impl Default for Selection {
    fn default() -> (r: Selection)
        ensures
            r == Selection::caret(Point { line: 0, byte: 0 }),
    {
        Selection {
            anchor: Point { line: 0, byte: 0 },
            cursor: Point { line: 0, byte: 0 },
            affinity: Affinity::Before,
            preferred_column: None,
        }
    }
}

impl Selection {
    pub open spec fn caret(p: Point) -> Selection {
        Selection { anchor: p, cursor: p, affinity: Affinity::Before, preferred_column: None }
    }

    pub open spec fn spec_is_empty(self) -> bool {
        self.anchor == self.cursor
    }

    pub open spec fn spec_start(self) -> Point {
        point_min(self.anchor, self.cursor)
    }

    pub open spec fn spec_end(self) -> Point {
        point_max(self.anchor, self.cursor)
    }

    /// Two selections coalesce when they overlap, or when they touch and one
    /// of them is a caret.
    pub open spec fn spec_should_merge(self, other: Selection) -> bool {
        if self.spec_is_empty() || other.spec_is_empty() {
            point_le(other.spec_start(), self.spec_end())
        } else {
            point_lt(other.spec_start(), self.spec_end())
        }
    }

    /// The union of `self` and a selection that starts no earlier: it
    /// spans from `self`'s start to the later of the two ends and keeps
    /// `self`'s orientation. The cursor end keeps the affinity and preferred
    /// column of the selection it came from, `other`'s when both end there.
    pub open spec fn spec_merge(self, other: Selection) -> Option<Selection> {
        if !self.spec_should_merge(other) {
            None
        } else {
            let other_ends = point_le(self.spec_end(), other.spec_end());
            let end = if other_ends { other.spec_end() } else { self.spec_end() };
            if point_le(self.anchor, self.cursor) {
                Some(Selection {
                    anchor: self.anchor,
                    cursor: end,
                    affinity: if other_ends { other.affinity } else { self.affinity },
                    preferred_column: if other_ends { other.preferred_column } else { self.preferred_column },
                })
            } else {
                Some(Selection {
                    anchor: end,
                    cursor: self.cursor,
                    affinity: self.affinity,
                    preferred_column: self.preferred_column,
                })
            }
        }
    }

    #[verifier::when_used_as_spec(spec_is_empty)]
    pub fn is_empty(self) -> (r: bool)
        ensures
            r == self.spec_is_empty(),
    {
        self.anchor == self.cursor
    }

    /// Whether `other`, which starts no earlier, merges with `self`.
    #[verifier::when_used_as_spec(spec_should_merge)]
    pub fn should_merge(self, other: Self) -> (r: bool)
        ensures
            r == self.spec_should_merge(other),
    {
        if self.is_empty() || other.is_empty() {
            other.start().le(self.end())
        } else {
            other.start().lt(self.end())
        }
    }

    /// The earlier end.
    #[verifier::when_used_as_spec(spec_start)]
    pub fn start(self) -> (r: Point)
        ensures
            r == self.spec_start(),
    {
        self.anchor.min(self.cursor)
    }

    /// The affinity at the start: `After` when the anchor comes first.
    pub fn start_affinity(self) -> (r: Affinity)
        ensures
            r == (if point_lt(self.anchor, self.cursor) { Affinity::After } else { self.affinity }),
    {
        if self.anchor.lt(self.cursor) {
            Affinity::After
        } else {
            self.affinity
        }
    }

    /// The later end.
    #[verifier::when_used_as_spec(spec_end)]
    pub fn end(self) -> (r: Point)
        ensures
            r == self.spec_end(),
    {
        self.anchor.max(self.cursor)
    }

    /// The affinity at the end: `Before` when the cursor comes first.
    pub fn end_affinity(self) -> (r: Affinity)
        ensures
            r == (if point_lt(self.cursor, self.anchor) { Affinity::Before } else { self.affinity }),
    {
        if self.cursor.lt(self.anchor) {
            Affinity::Before
        } else {
            self.affinity
        }
    }

    /// The distance from the start to the end.
    pub fn extent(self) -> (r: Extent)
        ensures
            r == extent_between(self.spec_start(), self.spec_end()),
    {
        self.end().sub(self.start())
    }

    /// The range from the start to the end.
    pub fn range(self) -> (r: Range)
        ensures
            r == (Range { start: self.spec_start(), end: self.spec_end() }),
    {
        match Range::new(self.start(), self.end()) {
            Some(r) => r,
            None => Range { start: self.start(), end: self.end() },
        }
    }

    /// The lines that the selection touches; a selection that ends at the
    /// start of a line, with the cursor first, leaves that line out.
    pub fn line_range(self) -> (r: std::ops::Range<usize>)
        ensures
            point_le(self.anchor, self.cursor) ==> r.start == self.anchor.line && r.end
                == sat_add(self.cursor.line as int, 1),
            !point_le(self.anchor, self.cursor) ==> r.start == self.cursor.line && r.end == (
            if self.anchor.byte == 0 {
                self.anchor.line
            } else {
                sat_add(self.anchor.line as int, 1)
            }),
    {
        if self.anchor.le(self.cursor) {
            self.anchor.line..self.cursor.line.saturating_add(1)
        } else {
            self.cursor.line..if self.anchor.byte == 0 {
                self.anchor.line
            } else {
                self.anchor.line.saturating_add(1)
            }
        }
    }

    /// The caret at the cursor: the anchor moves onto the cursor.
    pub fn reset_anchor(self) -> (r: Self)
        ensures
            r == (Selection { anchor: self.cursor, ..self }),
    {
        Selection { anchor: self.cursor, ..self }
    }

    /// The selection with the cursor moved to `to`; the anchor stays.
    pub fn update_cursor(self, to: (Point, Affinity, Option<usize>)) -> (r: Self)
        ensures
            r == (Selection {
                anchor: self.anchor,
                cursor: to.0,
                affinity: to.1,
                preferred_column: to.2,
            }),
    {
        let (cursor, affinity, preferred_column) = to;
        Selection { cursor, affinity, preferred_column, ..self }
    }

    /// The union of `self` and `other`, when they should merge.
    pub fn merge(self, other: Self) -> (r: Option<Self>)
        ensures
            r == self.spec_merge(other),
    {
        if !self.should_merge(other) {
            return None;
        }
        let other_ends = self.end().le(other.end());
        let end = if other_ends { other.end() } else { self.end() };
        if self.anchor.le(self.cursor) {
            Some(Selection {
                anchor: self.anchor,
                cursor: end,
                affinity: if other_ends { other.affinity } else { self.affinity },
                preferred_column: if other_ends { other.preferred_column } else { self.preferred_column },
            })
        } else {
            Some(Selection { anchor: end, cursor: self.cursor, affinity: self.affinity, preferred_column: self.preferred_column })
        }
    }

    /// Both ends remapped through `change`.
    pub fn apply_change(self, change: &Change, local: bool) -> (r: Selection)
        ensures
            r == (Selection {
                anchor: change_point(self.anchor, *change, local),
                cursor: change_point(self.cursor, *change, local),
                ..self
            }),
    {
        Selection {
            anchor: self.anchor.apply_change(change, local),
            cursor: self.cursor.apply_change(change, local),
            ..self
        }
    }
}

} // verus!
