//! Slots and sizes of the grid.

use vstd::prelude::*;

verus! {

/// A slot of the grid: the column `x` of the row `y`.
#[derive(Default, Debug, Clone, Copy, PartialEq, Eq, Structural)]
pub struct Position {
    pub x: u32,
    pub y: u32,
}

impl Position {
    pub fn new(x: u32, y: u32) -> (p: Self)
        ensures
            p == (Position { x, y }),
    {
        Self { x, y }
    }
}

/// The number of columns and of rows of a grid.
#[derive(Default, Debug, Clone, Copy, PartialEq, Eq, Structural)]
pub struct SizeInt {
    pub width: u32,
    pub height: u32,
}

impl SizeInt {
    pub fn new(width: u32, height: u32) -> (size: Self)
        ensures
            size == (SizeInt { width, height }),
    {
        Self { width, height }
    }
}

} // verus!
