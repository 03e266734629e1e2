//! Named shapes to seed a universe with.

use vstd::prelude::*;

use crate::utils::Position;

verus! {

/// A shape, as the cells it is made of. Each cell is an offset from the
/// position at which the shape is laid down.
pub struct CellPattern {
    pub cells: Vec<Position>,
}

/// The five cells of the glider.
pub open spec fn glider_cells() -> Seq<Position> {
    seq![
        Position { x: 0, y: 0 },
        Position { x: 1, y: 1 },
        Position { x: 1, y: 2 },
        Position { x: 2, y: 0 },
        Position { x: 2, y: 1 },
    ]
}

impl CellPattern {
    pub fn new(cells: Vec<Position>) -> (pattern: CellPattern)
        ensures
            pattern.cells == cells,
    {
        CellPattern { cells }
    }

    /// The glider: the smallest shape that travels.
    pub fn glider() -> (pattern: CellPattern)
        ensures
            pattern.cells@ == glider_cells(),
    {
        let mut cells: Vec<Position> = Vec::new();
        cells.push(Position::new(0, 0));
        cells.push(Position::new(1, 1));
        cells.push(Position::new(1, 2));
        cells.push(Position::new(2, 0));
        cells.push(Position::new(2, 1));
        assert(cells@ =~= glider_cells());
        CellPattern::new(cells)
    }
}

} // verus!
