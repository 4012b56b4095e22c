//! Places in a script's source text.

use vstd::prelude::*;

verus! {

/// A place in the source: its line and column, its offset from the start of
/// the text, and the compilation unit that the text belongs to.
#[derive(Clone, Copy, Debug, PartialEq, Eq, Structural)]
pub struct Location {
    pub line: usize,
    pub column: usize,
    pub absolute: usize,
    pub unit_id: usize,
}

/// A stretch of source text, from one place to another.
#[derive(Clone, Copy, Debug, PartialEq, Eq, Structural)]
pub struct Range {
    pub start: Location,
    pub end: Location,
}

impl Location {
    /// The place before all text.
    pub open spec fn origin() -> Location {
        Location { line: 0, column: 0, absolute: 0, unit_id: 0 }
    }

    /// The place in the compilation unit `cu`.
    pub open spec fn in_unit(self, cu: usize) -> Location {
        Location { unit_id: cu, ..self }
    }

    /// The place counted from `offset` instead of the start of the text: line
    /// and offset are reduced by those of `offset`, and never below zero.
    pub open spec fn relative_to(self, offset: Location) -> Location {
        Location {
            line: if self.line >= offset.line {
                (self.line - offset.line) as usize
            } else {
                0
            },
            absolute: if self.absolute >= offset.absolute {
                (self.absolute - offset.absolute) as usize
            } else {
                0
            },
            ..self
        }
    }

    pub fn new(line: usize, column: usize, absolute: usize) -> (r: Location)
        ensures
            r == (Location { line, column, absolute, unit_id: 0 }),
    {
        Location { line, column, absolute, unit_id: 0 }
    }

    pub fn set_cu(&mut self, cu: usize)
        ensures
            *final(self) == old(self).in_unit(cu),
    {
        self.unit_id = cu;
    }

    pub fn minus(self, offset: Location) -> (r: Location)
        ensures
            r == self.relative_to(offset),
    {
        Location {
            line: self.line.saturating_sub(offset.line),
            column: self.column,
            absolute: self.absolute.saturating_sub(offset.absolute),
            unit_id: self.unit_id,
        }
    }
}

impl Default for Location {
    fn default() -> (r: Location)
        ensures
            r == Location::origin(),
    {
        Location { line: 0, column: 0, absolute: 0, unit_id: 0 }
    }
}

impl Range {
    /// The stretch widened by `lines` lines of context on either side. The
    /// first line is not moved before the start of the text, nor the last past
    /// the largest line number.
    pub open spec fn widened(self, lines: usize) -> Range {
        Range {
            start: Location {
                line: if self.start.line >= lines {
                    (self.start.line - lines) as usize
                } else {
                    0
                },
                ..self.start
            },
            end: Location {
                line: if self.end.line + lines <= usize::MAX {
                    (self.end.line + lines) as usize
                } else {
                    usize::MAX
                },
                ..self.end
            },
        }
    }

    pub fn expand_lines(self, lines: usize) -> (r: Range)
        ensures
            r == self.widened(lines),
    {
        Range {
            start: Location {
                line: self.start.line.saturating_sub(lines),
                column: self.start.column,
                absolute: self.start.absolute,
                unit_id: self.start.unit_id,
            },
            end: Location {
                line: self.end.line.saturating_add(lines),
                column: self.end.column,
                absolute: self.end.absolute,
                unit_id: self.end.unit_id,
            },
        }
    }
}

} // verus!
