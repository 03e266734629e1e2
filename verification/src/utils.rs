//! Coordinates and sizes of the unbounded universe.

use vstd::prelude::*;

verus! {

/// An integer coordinate of the unbounded universe.
#[derive(Default, Debug, Clone, Copy, PartialEq, Eq, Hash, Structural)]
pub struct Position {
    pub x: i32,
    pub y: i32,
}

/// Whether `(x, y)` can be written as a [`Position`].
pub open spec fn in_range(x: int, y: int) -> bool {
    i32::MIN <= x <= i32::MAX && i32::MIN <= y <= i32::MAX
}

/// The position at `(x, y)` as a sequence of one element, or the empty
/// sequence where `(x, y)` lies outside the coordinate range.
pub open spec fn cell_at(x: int, y: int) -> Seq<Position> {
    if in_range(x, y) {
        seq![Position { x: x as i32, y: y as i32 }]
    } else {
        Seq::empty()
    }
}

/// Whether `q` is one of the eight cells that touch `p`.
pub open spec fn adjacent(p: Position, q: Position) -> bool {
    &&& p != q
    &&& -1 <= q.x - p.x <= 1
    &&& -1 <= q.y - p.y <= 1
}

/// The Moore neighbourhood of `p`, row by row from `y - 1` to `y + 1` and
/// within a row from `x - 1` to `x + 1`. A cell outside the coordinate range
/// is left out.
pub open spec fn neighbors_of(p: Position) -> Seq<Position> {
    cell_at(p.x - 1, p.y - 1) + cell_at(p.x as int, p.y - 1) + cell_at(p.x + 1, p.y - 1)
        + cell_at(p.x - 1, p.y as int) + cell_at(p.x + 1, p.y as int)
        + cell_at(p.x - 1, p.y + 1) + cell_at(p.x as int, p.y + 1) + cell_at(p.x + 1, p.y + 1)
}

/// An element of a concatenation is an element of one of its two parts.
proof fn lemma_concat_contains(a: Seq<Position>, b: Seq<Position>, q: Position)
    ensures
        (a + b).contains(q) <==> a.contains(q) || b.contains(q),
{
    if a.contains(q) {
        let i = choose|i: int| 0 <= i < a.len() && a[i] == q;
        assert((a + b)[i] == q);
    }
    if b.contains(q) {
        let i = choose|i: int| 0 <= i < b.len() && b[i] == q;
        assert((a + b)[a.len() + i] == q);
    }
    if (a + b).contains(q) {
        let i = choose|i: int| 0 <= i < (a + b).len() && (a + b)[i] == q;
        if i < a.len() {
            assert(a[i] == q);
        } else {
            assert(b[i - a.len()] == q);
        }
    }
}

/// `cell_at(x, y)` holds `q` exactly where `q` is the position `(x, y)`.
proof fn lemma_cell_at_contains(x: int, y: int, q: Position)
    ensures
        cell_at(x, y).contains(q) <==> q.x == x && q.y == y,
{
    if q.x == x && q.y == y {
        assert(cell_at(x, y)[0] == q);
    }
}

/// The neighbourhood of `p` holds the cells that touch `p`, and no others.
pub proof fn lemma_neighbors_touch(p: Position, q: Position)
    ensures
        neighbors_of(p).contains(q) <==> adjacent(p, q),
{
    let c0 = cell_at(p.x - 1, p.y - 1);
    let c1 = cell_at(p.x as int, p.y - 1);
    let c2 = cell_at(p.x + 1, p.y - 1);
    let c3 = cell_at(p.x - 1, p.y as int);
    let c4 = cell_at(p.x + 1, p.y as int);
    let c5 = cell_at(p.x - 1, p.y + 1);
    let c6 = cell_at(p.x as int, p.y + 1);
    let c7 = cell_at(p.x + 1, p.y + 1);
    lemma_cell_at_contains(p.x - 1, p.y - 1, q);
    lemma_cell_at_contains(p.x as int, p.y - 1, q);
    lemma_cell_at_contains(p.x + 1, p.y - 1, q);
    lemma_cell_at_contains(p.x - 1, p.y as int, q);
    lemma_cell_at_contains(p.x + 1, p.y as int, q);
    lemma_cell_at_contains(p.x - 1, p.y + 1, q);
    lemma_cell_at_contains(p.x as int, p.y + 1, q);
    lemma_cell_at_contains(p.x + 1, p.y + 1, q);
    lemma_concat_contains(c0, c1, q);
    lemma_concat_contains(c0 + c1, c2, q);
    lemma_concat_contains(c0 + c1 + c2, c3, q);
    lemma_concat_contains(c0 + c1 + c2 + c3, c4, q);
    lemma_concat_contains(c0 + c1 + c2 + c3 + c4, c5, q);
    lemma_concat_contains(c0 + c1 + c2 + c3 + c4 + c5, c6, q);
    lemma_concat_contains(c0 + c1 + c2 + c3 + c4 + c5 + c6, c7, q);
}

/// Appends the position at `(x, y)` to `cells` where it is in range.
fn push_cell(cells: &mut Vec<Position>, x: i64, y: i64)
    ensures
        final(cells)@ == old(cells)@ + cell_at(x as int, y as int),
{
    if -2147483648 <= x && x <= 2147483647 && -2147483648 <= y && y <= 2147483647 {
        cells.push(Position { x: x as i32, y: y as i32 });
    }
}

impl Position {
    pub fn new(x: i32, y: i32) -> (p: Self)
        ensures
            p == (Position { x, y }),
    {
        Self { x, y }
    }

    /// The cells that touch this one, in reading order of increasing `y`.
    pub fn neighbors(&self) -> (cells: Vec<Self>)
        ensures
            cells@ == neighbors_of(*self),
    {
        let x: i64 = self.x as i64;
        let y: i64 = self.y as i64;
        let mut cells: Vec<Self> = Vec::new();
        push_cell(&mut cells, x - 1, y - 1);
        push_cell(&mut cells, x, y - 1);
        push_cell(&mut cells, x + 1, y - 1);
        push_cell(&mut cells, x - 1, y);
        push_cell(&mut cells, x + 1, y);
        push_cell(&mut cells, x - 1, y + 1);
        push_cell(&mut cells, x, y + 1);
        push_cell(&mut cells, x + 1, y + 1);
        cells
    }
}

/// A width and a height, in cells.
#[derive(Default, Debug, Clone, Copy, PartialEq, Eq, Structural)]
pub struct SizeInt {
    pub width: i32,
    pub height: i32,
}

impl SizeInt {
    pub fn new(width: i32, height: i32) -> (size: Self)
        ensures
            size == (SizeInt { width, height }),
    {
        Self { width, height }
    }
}

} // verus!
