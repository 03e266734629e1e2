//! What holds of every grid.

use vstd::arithmetic::div_mod::{lemma_mod_add_multiples_vanish, lemma_mod_bound, lemma_small_mod};
use vstd::prelude::*;

use crate::grid::universe::model::{
    alive_at, all_inside, generations, inside, is_grid, live_neighbors, next_generation,
    next_state, toggled, toggled_all, uniform,
};
use crate::grid::universe::CellState;
use crate::grid::utils::SizeInt;

verus! {

/// A cell has between no and eight live neighbours, wherever it is and
/// whatever the grid holds.
pub proof fn lemma_live_neighbors_in_range(rows: Seq<Seq<CellState>>, size: SizeInt, x: int, y: int)
    ensures
        0 <= live_neighbors(rows, size, x, y) <= 8,
{
}

/// The grid wraps at its corners: where the cell in the last column of the
/// last row is alive, the cell in the first column of the first row has a
/// live neighbour.
pub proof fn lemma_corners_touch(rows: Seq<Seq<CellState>>, size: SizeInt)
    requires
        is_grid(rows, size),
        size.width > 0,
        size.height > 0,
        rows[size.height - 1][size.width - 1] == CellState::Alive,
    ensures
        live_neighbors(rows, size, 0, 0) >= 1,
{
    let w = size.width as int;
    let h = size.height as int;
    lemma_mod_add_multiples_vanish(-1, w);
    lemma_mod_add_multiples_vanish(-1, h);
    lemma_small_mod((w - 1) as nat, w as nat);
    lemma_small_mod((h - 1) as nat, h as nat);
    assert(alive_at(rows, (0 - 1) % w, (0 - 1) % h) == 1);
}

/// The next generation is a function of the grid and of which counts the two
/// rules hold. It depends on nothing else: not on the order in which the
/// slots are walked, nor on the order or the number of times a rule lists a
/// count.
pub proof fn lemma_next_generation_is_determined(
    rows: Seq<Seq<CellState>>,
    size: SizeInt,
    allowed: Seq<u8>,
    other_allowed: Seq<u8>,
    birth: Seq<u8>,
    other_birth: Seq<u8>,
)
    requires
        forall|n: u8| allowed.contains(n) == other_allowed.contains(n),
        forall|n: u8| birth.contains(n) == other_birth.contains(n),
    ensures
        next_generation(rows, size, allowed, birth) == next_generation(
            rows,
            size,
            other_allowed,
            other_birth,
        ),
{
    assert(next_generation(rows, size, allowed, birth) =~~= next_generation(
        rows,
        size,
        other_allowed,
        other_birth,
    ));
}

/// A grid without live cells stays without them for any number of
/// generations, under rules that do not let a cell be born with no live
/// neighbour.
pub proof fn lemma_dead_stays_dead(size: SizeInt, allowed: Seq<u8>, birth: Seq<u8>, steps: nat)
    requires
        !birth.contains(0),
    ensures
        generations(uniform(size, CellState::Dead), size, allowed, birth, steps) == uniform(
            size,
            CellState::Dead,
        ),
    decreases steps,
{
    if steps > 0 {
        lemma_dead_stays_dead(size, allowed, birth, (steps - 1) as nat);
        let dead = uniform(size, CellState::Dead);
        let w = size.width as int;
        let h = size.height as int;
        assert forall|x: int, y: int| inside(size, x, y) implies next_state(
            dead,
            size,
            allowed,
            birth,
            x,
            y,
        ) == CellState::Dead by {
            lemma_mod_bound(x - 1, w);
            lemma_mod_bound(x, w);
            lemma_mod_bound(x + 1, w);
            lemma_mod_bound(y - 1, h);
            lemma_mod_bound(y, h);
            lemma_mod_bound(y + 1, h);
            assert(live_neighbors(dead, size, x, y) == 0);
        }
        assert(next_generation(dead, size, allowed, birth) =~~= dead);
    }
}

/// Flipping a cell twice leaves the grid as it was.
pub proof fn lemma_toggle_twice(rows: Seq<Seq<CellState>>, size: SizeInt, x: int, y: int)
    requires
        is_grid(rows, size),
        inside(size, x, y),
    ensures
        toggled(toggled(rows, x, y), x, y) == rows,
{
    assert(toggled(toggled(rows, x, y), x, y) =~~= rows);
}

/// A list of slots of the grid is a shorter such list and one more slot of
/// the grid.
proof fn lemma_front_is_inside(size: SizeInt, positions: Seq<(u32, u32)>)
    requires
        all_inside(size, positions),
        positions.len() > 0,
    ensures
        all_inside(size, positions.drop_last()),
        inside(size, positions.last().0 as int, positions.last().1 as int),
{
    let front = positions.drop_last();
    assert forall|i: int| 0 <= i < front.len() implies inside(
        size,
        (#[trigger] front[i]).0 as int,
        front[i].1 as int,
    ) by {
        assert(front[i] == positions[i]);
    }
    assert(positions.last() == positions[positions.len() - 1]);
}

/// Flipping keeps the shape of the grid.
proof fn lemma_toggled_all_is_grid(rows: Seq<Seq<CellState>>, size: SizeInt, positions: Seq<(u32, u32)>)
    requires
        is_grid(rows, size),
        all_inside(size, positions),
    ensures
        is_grid(toggled_all(rows, positions), size),
    decreases positions.len(),
{
    if positions.len() > 0 {
        let front = positions.drop_last();
        lemma_front_is_inside(size, positions);
        lemma_toggled_all_is_grid(rows, size, front);
    }
}

/// A flip may be made before a list of flips or after it.
proof fn lemma_toggle_moves(
    rows: Seq<Seq<CellState>>,
    size: SizeInt,
    positions: Seq<(u32, u32)>,
    x: int,
    y: int,
)
    requires
        is_grid(rows, size),
        inside(size, x, y),
        all_inside(size, positions),
    ensures
        toggled_all(toggled(rows, x, y), positions) == toggled(toggled_all(rows, positions), x, y),
    decreases positions.len(),
{
    if positions.len() > 0 {
        let front = positions.drop_last();
        let p = positions.last();
        lemma_front_is_inside(size, positions);
        lemma_toggle_moves(rows, size, front, x, y);
        lemma_toggled_all_is_grid(rows, size, front);
        let mid = toggled_all(rows, front);
        assert(toggled(toggled(mid, x, y), p.0 as int, p.1 as int) =~~= toggled(
            toggled(mid, p.0 as int, p.1 as int),
            x,
            y,
        ));
    }
}

/// Flipping the same list of cells twice leaves the grid as it was, whatever
/// slots of the grid the list holds and however often it names one.
pub proof fn lemma_toggle_all_twice(
    rows: Seq<Seq<CellState>>,
    size: SizeInt,
    positions: Seq<(u32, u32)>,
)
    requires
        is_grid(rows, size),
        all_inside(size, positions),
    ensures
        toggled_all(toggled_all(rows, positions), positions) == rows,
    decreases positions.len(),
{
    if positions.len() > 0 {
        let front = positions.drop_last();
        let p = positions.last();
        lemma_front_is_inside(size, positions);
        let once = toggled_all(rows, front);
        lemma_toggled_all_is_grid(rows, size, front);
        lemma_toggle_moves(once, size, front, p.0 as int, p.1 as int);
        lemma_toggled_all_is_grid(once, size, front);
        lemma_toggle_twice(toggled_all(once, front), size, p.0 as int, p.1 as int);
        lemma_toggle_all_twice(rows, size, front);
    }
}

} // verus!
