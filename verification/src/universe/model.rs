//! What the unbounded universe is and does, in terms of the set of its live
//! cells.

use vstd::prelude::*;

use crate::rules::lives_on;
use crate::text::symbol;
use crate::universe::Bounds;
use crate::utils::{in_range, Position, SizeInt};

verus! {

/// 1 where `(x, y)` is a live cell of `live`, else 0. Nothing lives outside
/// the coordinate range.
pub open spec fn alive_at(live: Set<Position>, x: int, y: int) -> int {
    if in_range(x, y) && live.contains(Position { x: x as i32, y: y as i32 }) {
        1
    } else {
        0
    }
}

/// How many of the eight cells around `p` are alive in `live`.
pub open spec fn live_neighbors(live: Set<Position>, p: Position) -> int {
    alive_at(live, p.x - 1, p.y - 1) + alive_at(live, p.x as int, p.y - 1) + alive_at(
        live,
        p.x + 1,
        p.y - 1,
    ) + alive_at(live, p.x - 1, p.y as int) + alive_at(live, p.x + 1, p.y as int) + alive_at(
        live,
        p.x - 1,
        p.y + 1,
    ) + alive_at(live, p.x as int, p.y + 1) + alive_at(live, p.x + 1, p.y + 1)
}

/// Whether `p` is alive in the generation after `live`. A live cell follows
/// the plain rule. A dead cell follows it too where it touches a live cell;
/// one that touches none stays dead, whatever `birth` holds.
pub open spec fn next_alive(
    live: Set<Position>,
    allowed: Seq<u8>,
    birth: Seq<u8>,
    p: Position,
) -> bool {
    let n = live_neighbors(live, p);
    (live.contains(p) || n >= 1) && lives_on(live.contains(p), n, allowed, birth)
}

/// The generation after `live`.
pub open spec fn next_generation(live: Set<Position>, allowed: Seq<u8>, birth: Seq<u8>) -> Set<
    Position,
> {
    Set::new(|p: Position| next_alive(live, allowed, birth, p))
}

/// The universe `steps` generations after `live`.
pub open spec fn generations(
    live: Set<Position>,
    allowed: Seq<u8>,
    birth: Seq<u8>,
    steps: nat,
) -> Set<Position>
    decreases steps,
{
    if steps == 0 {
        live
    } else {
        next_generation(generations(live, allowed, birth, (steps - 1) as nat), allowed, birth)
    }
}

/// `live` with the cell at `p` flipped: a live cell dies, a dead one comes
/// alive.
pub open spec fn toggled(live: Set<Position>, p: Position) -> Set<Position> {
    if live.contains(p) {
        live.remove(p)
    } else {
        live.insert(p)
    }
}

/// `live` after each of `positions` was flipped in turn. A position that
/// occurs twice is flipped twice.
pub open spec fn toggled_all(live: Set<Position>, positions: Seq<Position>) -> Set<Position>
    decreases positions.len(),
{
    if positions.len() == 0 {
        live
    } else {
        toggled(toggled_all(live, positions.drop_last()), positions.last())
    }
}

/// Whether `p` is a cell of the shape `offsets` laid down at `anchor`: the
/// anchor moved by one of the offsets.
pub open spec fn laid_down(offsets: Seq<Position>, anchor: Position, p: Position) -> bool {
    exists|i: int|
        0 <= i < offsets.len() && p.x == anchor.x + (#[trigger] offsets[i]).x && p.y == anchor.y
            + offsets[i].y
}

/// Whether `p` lies in the rectangle that a universe of `size` is generated
/// in: `size.width` columns and `size.height` rows, centred on the origin. A
/// side of `n` cells runs from minus half of `n`, rounded down, over `n`
/// cells, so that an odd side has the origin in its middle. A size with a
/// side that is not positive holds no cell.
pub open spec fn in_nursery(size: SizeInt, p: Position) -> bool {
    &&& size.width > 0 && size.height > 0
    &&& -(size.width / 2) <= p.x < -(size.width / 2) + size.width
    &&& -(size.height / 2) <= p.y < -(size.height / 2) + size.height
}

/// The cells of the rectangle that a universe of `size` is generated in.
pub open spec fn nursery(size: SizeInt) -> Set<Position> {
    Set::new(|p: Position| in_nursery(size, p))
}

/// Whether `bounds` is the smallest rectangle that holds every cell of
/// `live`: each edge is reached by a cell and passed by none. Of no cells
/// at all it is the rectangle of size zero at the origin.
pub open spec fn bounds_of(live: Set<Position>, bounds: Bounds) -> bool {
    if live =~= Set::<Position>::empty() {
        bounds == (Bounds { top: 0, right: 0, bottom: 0, left: 0 })
    } else {
        &&& forall|p: Position| #[trigger]
            live.contains(p) ==> bounds.left <= p.x <= bounds.right && bounds.bottom <= p.y
                <= bounds.top
        &&& exists|p: Position| #[trigger] live.contains(p) && p.y == bounds.top
        &&& exists|p: Position| #[trigger] live.contains(p) && p.x == bounds.right
        &&& exists|p: Position| #[trigger] live.contains(p) && p.y == bounds.bottom
        &&& exists|p: Position| #[trigger] live.contains(p) && p.x == bounds.left
    }
}

/// The row `y` of `live` as text, from the left edge of `bounds` to its
/// right edge.
pub open spec fn row_text(live: Set<Position>, bounds: Bounds, y: int) -> Seq<char> {
    Seq::new(
        (bounds.right - bounds.left + 1) as nat,
        |i: int| symbol(alive_at(live, bounds.left + i, y) == 1),
    )
}

/// The topmost `rows` rows of `bounds` as text, from the top edge down, each
/// after a line feed.
pub open spec fn rows_text(live: Set<Position>, bounds: Bounds, rows: nat) -> Seq<char>
    decreases rows,
{
    if rows == 0 {
        Seq::empty()
    } else {
        rows_text(live, bounds, (rows - 1) as nat).push('\n') + row_text(
            live,
            bounds,
            bounds.top - (rows - 1),
        )
    }
}

/// Whether `text` shows `live`: every row of its smallest rectangle, from
/// the top edge to the bottom edge. Of no cells at all it is the empty text.
pub open spec fn shows(live: Set<Position>, text: Seq<char>) -> bool {
    if live =~= Set::<Position>::empty() {
        text == Seq::<char>::empty()
    } else {
        exists|bounds: Bounds| #[trigger]
            bounds_of(live, bounds) && text == rows_text(
                live,
                bounds,
                (bounds.top - bounds.bottom + 1) as nat,
            )
    }
}

} // verus!
