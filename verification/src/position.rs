//! Source positions and ranges used to localize diagnostics: a point is a
//! 1-based row and a 1-based column counted in characters, and a range is
//! an inclusive start/end pair of points.

use vstd::prelude::*;

use crate::text::spec_decimal_string;
use crate::text::decimal_string;

verus! {

/// Mathematical model of a position: unbounded row and column.
pub struct GPos {
    pub row: int,
    pub col: int,
}

/// Mathematical model of a range.
pub struct GRange {
    pub start: GPos,
    pub end: GPos,
}

/// A point in the source text: 1-based row, 1-based column in characters.
#[derive(Debug, Clone, Copy, PartialEq, Eq, Structural)]
pub struct Position {
    pub row: usize,
    pub col: usize,
}

impl View for Position {
    type V = GPos;

    open spec fn view(&self) -> GPos {
        GPos { row: self.row as int, col: self.col as int }
    }
}

/// The text `(row, col)`.
pub open spec fn spec_position_string(p: GPos) -> Seq<char> {
    "("@ + spec_decimal_string(p.row) + ", "@ + spec_decimal_string(p.col) + ")"@
}

impl Position {
    /// Builds the point `(row, col)`.
    pub fn new(row: usize, col: usize) -> (r: Position)
        ensures
            r.row == row,
            r.col == col,
    {
        Position { row, col }
    }

    /// Renders the point as `(row, col)`.
    pub fn to_display_string(&self) -> (r: String)
        ensures
            r@ == spec_position_string(self@),
    {
        let mut s = String::from_str("(");
        s.append(decimal_string(self.row as u64).as_str());
        s.append(", ");
        s.append(decimal_string(self.col as u64).as_str());
        s.append(")");
        s
    }
}

/// The source span between two points, both included.
#[derive(Debug, Clone, Copy, PartialEq, Eq, Structural)]
pub struct Range {
    pub start: Position,
    pub end: Position,
}

impl View for Range {
    type V = GRange;

    open spec fn view(&self) -> GRange {
        GRange { start: self.start@, end: self.end@ }
    }
}

/// The text `(start, end)` with both points rendered as `(row, col)`.
pub open spec fn spec_range_string(r: GRange) -> Seq<char> {
    "("@ + spec_position_string(r.start) + ", "@ + spec_position_string(r.end) + ")"@
}

impl Range {
    /// Renders the span as `(start, end)`.
    pub fn to_display_string(&self) -> (r: String)
        ensures
            r@ == spec_range_string(self@),
    {
        let mut s = String::from_str("(");
        s.append(self.start.to_display_string().as_str());
        s.append(", ");
        s.append(self.end.to_display_string().as_str());
        s.append(")");
        s
    }
}

} // verus!
