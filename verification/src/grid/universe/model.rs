//! What the grid is and does, in terms of the states of its cells, row by
//! row.

use vstd::prelude::*;

use crate::grid::universe::{BoundsViolation, CellData, CellState};
use crate::grid::utils::{Position, SizeInt};
use crate::rules::lives_on;
use crate::text::symbol;

verus! {

/// The states that the slots `cells` hold, row by row.
pub open spec fn states(cells: Seq<Vec<CellData>>) -> Seq<Seq<CellState>> {
    Seq::new(cells.len(), |y: int| Seq::new(cells[y]@.len(), |x: int| cells[y]@[x].state))
}

/// Whether `rows` is a grid of `size`: as many rows as the height, each as
/// long as the width.
pub open spec fn is_grid(rows: Seq<Seq<CellState>>, size: SizeInt) -> bool {
    &&& rows.len() == size.height
    &&& forall|y: int| 0 <= y < rows.len() ==> (#[trigger] rows[y]).len() == size.width
}

/// Whether a grid of `size` has the slot `(x, y)`.
pub open spec fn inside(size: SizeInt, x: int, y: int) -> bool {
    0 <= x < size.width && 0 <= y < size.height
}

/// The grid of `size` in which every cell has the state `state`.
pub open spec fn uniform(size: SizeInt, state: CellState) -> Seq<Seq<CellState>> {
    Seq::new(size.height as nat, |y: int| Seq::new(size.width as nat, |x: int| state))
}

/// 1 where the slot `(x, y)` of `rows` holds a live cell, else 0.
pub open spec fn alive_at(rows: Seq<Seq<CellState>>, x: int, y: int) -> int {
    if rows[y][x] == CellState::Alive {
        1
    } else {
        0
    }
}

/// How many of the eight slots around `(x, y)` hold a live cell. The grid
/// wraps: the column before the first is the last, the row after the last is
/// the first.
pub open spec fn live_neighbors(rows: Seq<Seq<CellState>>, size: SizeInt, x: int, y: int) -> int {
    let w = size.width as int;
    let h = size.height as int;
    alive_at(rows, (x - 1) % w, (y - 1) % h) + alive_at(rows, x % w, (y - 1) % h) + alive_at(
        rows,
        (x + 1) % w,
        (y - 1) % h,
    ) + alive_at(rows, (x - 1) % w, y % h) + alive_at(rows, (x + 1) % w, y % h) + alive_at(
        rows,
        (x - 1) % w,
        (y + 1) % h,
    ) + alive_at(rows, x % w, (y + 1) % h) + alive_at(rows, (x + 1) % w, (y + 1) % h)
}

/// The state of the slot `(x, y)` in the generation after `rows`.
pub open spec fn next_state(
    rows: Seq<Seq<CellState>>,
    size: SizeInt,
    allowed: Seq<u8>,
    birth: Seq<u8>,
    x: int,
    y: int,
) -> CellState {
    if lives_on(
        rows[y][x] == CellState::Alive,
        live_neighbors(rows, size, x, y),
        allowed,
        birth,
    ) {
        CellState::Alive
    } else {
        CellState::Dead
    }
}

/// The generation after `rows`: every slot judged by `rows` alone.
pub open spec fn next_generation(
    rows: Seq<Seq<CellState>>,
    size: SizeInt,
    allowed: Seq<u8>,
    birth: Seq<u8>,
) -> Seq<Seq<CellState>> {
    Seq::new(
        size.height as nat,
        |y: int| Seq::new(size.width as nat, |x: int| next_state(rows, size, allowed, birth, x, y)),
    )
}

/// The grid `steps` generations after `rows`.
pub open spec fn generations(
    rows: Seq<Seq<CellState>>,
    size: SizeInt,
    allowed: Seq<u8>,
    birth: Seq<u8>,
    steps: nat,
) -> Seq<Seq<CellState>>
    decreases steps,
{
    if steps == 0 {
        rows
    } else {
        next_generation(
            generations(rows, size, allowed, birth, (steps - 1) as nat),
            size,
            allowed,
            birth,
        )
    }
}

/// The other state.
pub open spec fn flipped(state: CellState) -> CellState {
    match state {
        CellState::Dead => CellState::Alive,
        CellState::Alive => CellState::Dead,
    }
}

/// `rows` with the cell in the slot `(x, y)` flipped.
pub open spec fn toggled(rows: Seq<Seq<CellState>>, x: int, y: int) -> Seq<Seq<CellState>> {
    rows.update(y, rows[y].update(x, flipped(rows[y][x])))
}

/// `rows` after each of `positions`, a column and a row, was flipped in
/// turn. A slot that occurs twice is flipped twice.
pub open spec fn toggled_all(rows: Seq<Seq<CellState>>, positions: Seq<(u32, u32)>) -> Seq<
    Seq<CellState>,
>
    decreases positions.len(),
{
    if positions.len() == 0 {
        rows
    } else {
        toggled(
            toggled_all(rows, positions.drop_last()),
            positions.last().0 as int,
            positions.last().1 as int,
        )
    }
}

/// Whether a grid of `size` has every slot of `positions`, each a column and
/// a row.
pub open spec fn all_inside(size: SizeInt, positions: Seq<(u32, u32)>) -> bool {
    forall|i: int|
        0 <= i < positions.len() ==> inside(
            size,
            (#[trigger] positions[i]).0 as int,
            positions[i].1 as int,
        )
}

/// Whether `positions[at]` is the first of `positions` that a grid of `size`
/// does not have.
pub open spec fn first_outside(size: SizeInt, positions: Seq<(u32, u32)>, at: int) -> bool {
    &&& 0 <= at < positions.len()
    &&& !inside(size, positions[at].0 as int, positions[at].1 as int)
    &&& forall|i: int|
        0 <= i < at ==> inside(size, (#[trigger] positions[i]).0 as int, positions[i].1 as int)
}

/// Whether `e` names the first of `positions` that a grid of `size` does not
/// have.
pub open spec fn names_first_outside(
    size: SizeInt,
    positions: Seq<(u32, u32)>,
    e: BoundsViolation,
) -> bool {
    exists|at: int|
        #[trigger] first_outside(size, positions, at) && e.x == positions[at].0 && e.y
            == positions[at].1
}

/// Whether the offset at index `i`, laid down at `anchor`, falls on the slot
/// `(x, y)`.
pub open spec fn falls_on(
    offsets: Seq<crate::utils::Position>,
    i: int,
    anchor: Position,
    x: int,
    y: int,
) -> bool {
    &&& 0 <= i < offsets.len()
    &&& x == anchor.x + offsets[i].x
    &&& y == anchor.y + offsets[i].y
}

/// Whether one of the offsets, laid down at `anchor`, falls on the slot
/// `(x, y)`.
pub open spec fn covers(
    offsets: Seq<crate::utils::Position>,
    anchor: Position,
    x: int,
    y: int,
) -> bool {
    exists|i: int| #[trigger] falls_on(offsets, i, anchor, x, y)
}

/// `rows` with a live cell in every slot that one of the offsets, laid down
/// at `anchor`, falls on.
pub open spec fn laid_down(
    rows: Seq<Seq<CellState>>,
    size: SizeInt,
    offsets: Seq<crate::utils::Position>,
    anchor: Position,
) -> Seq<Seq<CellState>> {
    Seq::new(
        size.height as nat,
        |y: int|
            Seq::new(
                size.width as nat,
                |x: int|
                    if covers(offsets, anchor, x, y) {
                        CellState::Alive
                    } else {
                        rows[y][x]
                    },
            ),
    )
}

/// Whether the offset at index `at` is the first that, laid down at `anchor`,
/// falls outside a grid of `size`, and `e` names the place where it falls.
pub open spec fn first_to_fall_outside(
    size: SizeInt,
    offsets: Seq<crate::utils::Position>,
    anchor: Position,
    at: int,
    e: BoundsViolation,
) -> bool {
    &&& 0 <= at < offsets.len()
    &&& e.x == anchor.x + offsets[at].x
    &&& e.y == anchor.y + offsets[at].y
    &&& !inside(size, e.x as int, e.y as int)
    &&& forall|i: int|
        0 <= i < at ==> inside(
            size,
            anchor.x + (#[trigger] offsets[i]).x,
            anchor.y + offsets[i].y,
        )
}

/// Whether `e` names the place where the first offset falls that, laid down
/// at `anchor`, falls outside a grid of `size`.
pub open spec fn names_first_to_fall_outside(
    size: SizeInt,
    offsets: Seq<crate::utils::Position>,
    anchor: Position,
    e: BoundsViolation,
) -> bool {
    exists|at: int| #[trigger] first_to_fall_outside(size, offsets, anchor, at, e)
}

/// A row as text: the character of each cell, then a line feed.
pub open spec fn line(row: Seq<CellState>) -> Seq<char> {
    Seq::new(row.len(), |x: int| symbol(row[x] == CellState::Alive)).push('\n')
}

/// A grid as text: its rows as lines, from the first to the last.
pub open spec fn picture(rows: Seq<Seq<CellState>>) -> Seq<char>
    decreases rows.len(),
{
    if rows.len() == 0 {
        Seq::empty()
    } else {
        picture(rows.drop_last()) + line(rows.last())
    }
}

} // verus!
