//! Positions and cell values.

use vstd::prelude::*;

verus! {

/// An integer coordinate pair that names one cell of the grid.
#[derive(Clone, Copy, Debug, PartialEq, Eq, Hash, Structural)]
pub struct Pos {
    pub x: i64,
    pub y: i64,
}

impl Pos {
    /// The strict order in which a grid keeps its entries: by column, then by row.
    pub open spec fn precedes(self, other: Pos) -> bool {
        self.x < other.x || (self.x == other.x && self.y < other.y)
    }

    pub fn new(x: i64, y: i64) -> (pos: Pos)
        ensures
            pos == (Pos { x, y }),
    {
        Pos { x, y }
    }

    /// Decides [`Pos::precedes`].
    pub fn is_before(&self, other: &Pos) -> (before: bool)
        ensures
            before == self.precedes(*other),
    {
        self.x < other.x || (self.x == other.x && self.y < other.y)
    }
}

/// Two distinct positions are ordered one way or the other, never both.
pub proof fn lemma_precedes_is_total(a: Pos, b: Pos)
    ensures
        a == b || a.precedes(b) || b.precedes(a),
        !(a.precedes(b) && b.precedes(a)),
        !a.precedes(a),
{
}

/// The kinds of value a cell can hold.
#[derive(Clone, Copy, Debug, PartialEq, Eq, Structural)]
pub enum CellKind {
    Empty,
    Integer,
}

/// The content of one grid position. `Empty` is what every position holds
/// until something else is written there.
#[derive(Clone, Copy, Debug, PartialEq, Eq, Structural)]
pub enum Cell {
    Empty,
    Integer(i64),
}

/// A consumer asked a cell for a kind of value that it does not hold.
#[derive(Clone, Copy, Debug, PartialEq, Eq, Structural)]
pub struct TypeMismatch {
    pub expected: CellKind,
    pub found: CellKind,
}

impl Cell {
    pub open spec fn kind_of(self) -> CellKind {
        match self {
            Cell::Empty => CellKind::Empty,
            Cell::Integer(_) => CellKind::Integer,
        }
    }

    /// What a numeric consumer gets from this cell: the integer it holds, or
    /// a type mismatch that names the kind found. An empty cell is no zero.
    pub open spec fn integer_value(self) -> Result<i64, TypeMismatch> {
        match self {
            Cell::Integer(value) => Ok(value),
            Cell::Empty => Err(
                TypeMismatch { expected: CellKind::Integer, found: CellKind::Empty },
            ),
        }
    }

    pub fn kind(&self) -> (kind: CellKind)
        ensures
            kind == self.kind_of(),
    {
        match self {
            Cell::Empty => CellKind::Empty,
            Cell::Integer(_) => CellKind::Integer,
        }
    }

    pub fn is_empty(&self) -> (empty: bool)
        ensures
            empty == (*self == Cell::Empty),
    {
        match self {
            Cell::Empty => true,
            Cell::Integer(_) => false,
        }
    }

    /// The numeric conversion boundary: `Ok` exactly for an `Integer` cell.
    pub fn to_integer(&self) -> (converted: Result<i64, TypeMismatch>)
        ensures
            converted == self.integer_value(),
            converted.is_ok() <==> self.kind_of() == CellKind::Integer,
    {
        match self {
            Cell::Integer(value) => Ok(*value),
            Cell::Empty => Err(
                TypeMismatch { expected: CellKind::Integer, found: CellKind::Empty },
            ),
        }
    }
}

impl Default for Cell {
    fn default() -> (cell: Cell)
        ensures
            cell == Cell::Empty,
    {
        Cell::Empty
    }
}

} // verus!
