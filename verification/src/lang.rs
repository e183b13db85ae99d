use vstd::prelude::*;

verus! {

/// A position in a source text, as a column and a row.
pub struct Position {
    /// Column
    pub col: u32,
    /// Row
    pub row: u32,
}

/// A contiguous region of a source text.
pub struct Span {
    pub start: Position,
    pub end: Position,
}

/// A parser for a markup language `L`.
pub trait Parser<L> {

}

} // verus!
