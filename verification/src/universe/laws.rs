//! What holds of every unbounded universe.

use vstd::prelude::*;
use vstd::relations::injective_on;
use vstd::set_lib::{lemma_int_range, lemma_map_size, lemma_set_disjoint_lens, set_int_range};

use crate::universe::model::{
    alive_at, bounds_of, generations, in_nursery, live_neighbors, next_generation, nursery,
    toggled, toggled_all,
};
use crate::universe::Bounds;
use crate::utils::{adjacent, Position, SizeInt};

verus! {

/// A cell has a live neighbour exactly where a live cell touches it.
pub proof fn lemma_live_neighbor_touches(live: Set<Position>, p: Position)
    ensures
        0 <= live_neighbors(live, p) <= 8,
        live_neighbors(live, p) >= 1 <==> exists|q: Position|
            live.contains(q) && #[trigger] adjacent(p, q),
{
    if live_neighbors(live, p) >= 1 {
        let q = if alive_at(live, p.x - 1, p.y - 1) == 1 {
            Position { x: (p.x - 1) as i32, y: (p.y - 1) as i32 }
        } else if alive_at(live, p.x as int, p.y - 1) == 1 {
            Position { x: p.x, y: (p.y - 1) as i32 }
        } else if alive_at(live, p.x + 1, p.y - 1) == 1 {
            Position { x: (p.x + 1) as i32, y: (p.y - 1) as i32 }
        } else if alive_at(live, p.x - 1, p.y as int) == 1 {
            Position { x: (p.x - 1) as i32, y: p.y }
        } else if alive_at(live, p.x + 1, p.y as int) == 1 {
            Position { x: (p.x + 1) as i32, y: p.y }
        } else if alive_at(live, p.x - 1, p.y + 1) == 1 {
            Position { x: (p.x - 1) as i32, y: (p.y + 1) as i32 }
        } else if alive_at(live, p.x as int, p.y + 1) == 1 {
            Position { x: p.x, y: (p.y + 1) as i32 }
        } else {
            Position { x: (p.x + 1) as i32, y: (p.y + 1) as i32 }
        };
        assert(live.contains(q) && adjacent(p, q));
    }
    if exists|q: Position| live.contains(q) && #[trigger] adjacent(p, q) {
        let q = choose|q: Position| live.contains(q) && #[trigger] adjacent(p, q);
        assert(alive_at(live, q.x as int, q.y as int) == 1);
    }
}

/// The next generation is a function of the live cells and of which counts
/// the two rules hold. It depends on nothing else: not on the order in which
/// the cells are walked, nor on the order or the number of times a rule lists
/// a count.
pub proof fn lemma_next_generation_is_determined(
    live: Set<Position>,
    allowed: Seq<u8>,
    other_allowed: Seq<u8>,
    birth: Seq<u8>,
    other_birth: Seq<u8>,
)
    requires
        forall|n: u8| allowed.contains(n) == other_allowed.contains(n),
        forall|n: u8| birth.contains(n) == other_birth.contains(n),
    ensures
        next_generation(live, allowed, birth) == next_generation(live, other_allowed, other_birth),
{
    assert(next_generation(live, allowed, birth) =~= next_generation(
        live,
        other_allowed,
        other_birth,
    ));
}

/// A universe without live cells stays without them, for any rules and any
/// number of generations: no cell is born of nothing.
pub proof fn lemma_empty_stays_empty(allowed: Seq<u8>, birth: Seq<u8>, steps: nat)
    ensures
        generations(Set::<Position>::empty(), allowed, birth, steps) == Set::<Position>::empty(),
    decreases steps,
{
    if steps > 0 {
        lemma_empty_stays_empty(allowed, birth, (steps - 1) as nat);
        assert(next_generation(Set::<Position>::empty(), allowed, birth) =~= Set::<
            Position,
        >::empty());
    }
}

/// Flipping a cell twice leaves the universe as it was.
pub proof fn lemma_toggle_twice(live: Set<Position>, p: Position)
    ensures
        toggled(toggled(live, p), p) == live,
{
    assert(toggled(toggled(live, p), p) =~= live);
}

/// Two flips may be made in either order.
proof fn lemma_toggles_commute(live: Set<Position>, p: Position, q: Position)
    ensures
        toggled(toggled(live, p), q) == toggled(toggled(live, q), p),
{
    assert(toggled(toggled(live, p), q) =~= toggled(toggled(live, q), p));
}

/// A flip may be made before a list of flips or after it.
proof fn lemma_toggle_moves(live: Set<Position>, positions: Seq<Position>, p: Position)
    ensures
        toggled_all(toggled(live, p), positions) == toggled(toggled_all(live, positions), p),
    decreases positions.len(),
{
    if positions.len() > 0 {
        let front = positions.drop_last();
        lemma_toggle_moves(live, front, p);
        lemma_toggles_commute(toggled_all(live, front), p, positions.last());
    }
}

/// Flipping the same list of cells twice leaves the universe as it was,
/// whatever the list holds and however often it names a cell.
pub proof fn lemma_toggle_all_twice(live: Set<Position>, positions: Seq<Position>)
    ensures
        toggled_all(toggled_all(live, positions), positions) == live,
    decreases positions.len(),
{
    if positions.len() > 0 {
        let front = positions.drop_last();
        let p = positions.last();
        let once = toggled_all(live, front);
        lemma_toggle_moves(once, front, p);
        lemma_toggle_all_twice(live, front);
        lemma_toggle_twice(toggled_all(once, front), p);
    }
}

/// The cells of the rectangle of `size` that lie in the row `y`.
spec fn nursery_row(size: SizeInt, y: int) -> Set<Position> {
    Set::new(|p: Position| in_nursery(size, p) && p.y == y)
}

/// The cells of the rectangle of `size` that lie below the row `y`.
spec fn nursery_below(size: SizeInt, y: int) -> Set<Position> {
    Set::new(|p: Position| in_nursery(size, p) && p.y < y)
}

/// A row of the rectangle holds as many cells as the rectangle is wide.
proof fn lemma_nursery_row_size(size: SizeInt, y: int)
    requires
        size.width > 0,
        size.height > 0,
        -(size.height / 2) <= y < -(size.height / 2) + size.height,
    ensures
        nursery_row(size, y).finite(),
        nursery_row(size, y).len() == size.width,
{
    let left = -(size.width / 2);
    let columns = set_int_range(left, left + size.width);
    let cell = |x: int| Position { x: x as i32, y: y as i32 };
    lemma_int_range(left, left + size.width);
    assert(injective_on(cell, columns));
    assert forall|p: Position| nursery_row(size, y).contains(p) implies columns.map(cell).contains(
        p,
    ) by {
        assert(columns.contains(p.x as int) && cell(p.x as int) == p);
    }
    assert(columns.map(cell) =~= nursery_row(size, y));
    lemma_map_size(columns, nursery_row(size, y), cell);
}

/// The rows below a row of the rectangle hold that many rows of cells.
proof fn lemma_nursery_below_size(size: SizeInt, y: int)
    requires
        size.width > 0,
        size.height > 0,
        -(size.height / 2) <= y <= -(size.height / 2) + size.height,
    ensures
        nursery_below(size, y).finite(),
        nursery_below(size, y).len() == (y + size.height / 2) * size.width,
    decreases y + size.height / 2,
{
    if y == -(size.height / 2) {
        assert(nursery_below(size, y) =~= Set::<Position>::empty());
    } else {
        let below = nursery_below(size, y - 1);
        let row = nursery_row(size, y - 1);
        lemma_nursery_below_size(size, y - 1);
        lemma_nursery_row_size(size, y - 1);
        assert(nursery_below(size, y) =~= below + row);
        assert(below.disjoint(row));
        lemma_set_disjoint_lens(below, row);
        assert((y + size.height / 2) * size.width == (y - 1 + size.height / 2) * size.width
            + size.width) by (nonlinear_arith);
    }
}

/// The rectangle that a universe is generated in holds as many cells as the
/// size says: its width times its height, and none where a side is not
/// positive.
pub proof fn lemma_nursery_size(size: SizeInt)
    ensures
        nursery(size).finite(),
        nursery(size).len() == if size.width > 0 && size.height > 0 {
            size.width * size.height
        } else {
            0
        },
{
    if size.width > 0 && size.height > 0 {
        let top = -(size.height / 2) + size.height;
        lemma_nursery_below_size(size, top);
        assert(nursery(size) =~= nursery_below(size, top));
        assert((top + size.height / 2) * size.width == size.width * size.height)
            by (nonlinear_arith)
            requires
                top + size.height / 2 == size.height,
        ;
    } else {
        assert(nursery(size) =~= Set::<Position>::empty());
    }
}

/// A set of cells has one smallest rectangle.
pub proof fn lemma_bounds_are_unique(live: Set<Position>, a: Bounds, b: Bounds)
    requires
        bounds_of(live, a),
        bounds_of(live, b),
    ensures
        a == b,
{
}

} // verus!
