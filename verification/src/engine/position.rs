//! Positions of tokens and errors in the input.

use vstd::prelude::*;

verus! {

/// A position in the input.  Both numbers are 1-based; the column counts
/// elements since the last line break.  The line number increments and
/// the column resets immediately after a line feed is consumed.
#[derive(Clone, Copy, Debug, PartialEq, Eq, Structural)]
pub struct Position {
    /// The 1-based line number.
    pub line_number: usize,
    /// The 1-based column number, counting elements on the current line.
    pub column_number: usize,
}

/// A value paired with the position of its first constituent element.
pub struct WithPosition<T> {
    /// The value itself.
    pub value: T,
    /// The position of the value's first element.
    pub position: Position,
}

} // verus!
