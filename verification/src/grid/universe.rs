//! The grid and its generation rule.

use vstd::arithmetic::div_mod::{lemma_mod_add_multiples_vanish, lemma_small_mod};
use vstd::prelude::*;

use crate::cell_patterns::CellPattern;
use crate::grid::universe::model::{
    alive_at, all_inside, covers, falls_on, first_outside, first_to_fall_outside, inside, is_grid,
    laid_down, line, live_neighbors, names_first_outside, names_first_to_fall_outside,
    next_generation, next_state, picture, states, toggled, toggled_all, uniform,
};
use crate::grid::utils::{Position, SizeInt};
use crate::rules::decide;
use crate::seeding::{draw, LifeChance, CERTAIN};
use crate::text::{symbol, symbol_of, text_of};

pub mod laws;
pub mod model;

verus! {

/// Whether a cell lives.
#[derive(Clone, Copy, Debug, PartialEq, Eq, Structural)]
pub enum CellState {
    Dead,
    Alive,
}

/// What a slot of the grid holds.
#[derive(Clone, Copy, Debug, PartialEq, Eq, Structural)]
pub struct CellData {
    pub state: CellState,
}

impl CellData {
    /// What a slot holds after seeding with the draw `draw`: a live cell
    /// where `life_chance` admits the draw, a dead one where it does not.
    pub fn seeded(draw: u32, life_chance: LifeChance) -> (cell: Self)
        ensures
            cell.state == if draw < life_chance@ {
                CellState::Alive
            } else {
                CellState::Dead
            },
    {
        if life_chance.admits(draw) {
            CellData { state: CellState::Alive }
        } else {
            CellData { state: CellState::Dead }
        }
    }
}

/// A slot was named that the grid does not have.
#[derive(Clone, Copy, Debug, PartialEq, Eq, Structural)]
pub struct BoundsViolation {
    pub x: i64,
    pub y: i64,
}

/// A grid of fixed size, each slot dead or alive.
#[derive(Debug)]
pub struct Universe {
    size: SizeInt,
    cells: Vec<Vec<CellData>>,
}

impl View for Universe {
    type V = Seq<Seq<CellState>>;

    /// The states of the cells, row by row.
    closed spec fn view(&self) -> Seq<Seq<CellState>> {
        states(self.cells@)
    }
}

impl Default for Universe {
    /// The grid without a slot.
    fn default() -> (universe: Self)
        ensures
            universe.wf(),
            universe.extent() == (SizeInt { width: 0, height: 0 }),
            universe@ == Seq::<Seq<CellState>>::empty(),
    {
        let universe = Self { size: SizeInt::new(0, 0), cells: Vec::new() };
        assert(universe@ =~~= Seq::<Seq<CellState>>::empty());
        universe
    }
}

impl Clone for Universe {
    fn clone(&self) -> (universe: Self)
        ensures
            universe@ == self@,
            universe.extent() == self.extent(),
            self.wf() ==> universe.wf(),
    {
        let mut cells: Vec<Vec<CellData>> = Vec::new();
        let mut y: usize = 0;
        while y < self.cells.len()
            invariant
                y <= self.cells.len(),
                cells@.len() == y,
                forall|r: int| 0 <= r < y ==> (#[trigger] cells@[r])@ == self.cells@[r]@,
            decreases self.cells.len() - y,
        {
            let from = &self.cells[y];
            let mut row: Vec<CellData> = Vec::new();
            let mut x: usize = 0;
            while x < from.len()
                invariant
                    x <= from.len(),
                    row@ == from@.take(x as int),
                decreases from.len() - x,
            {
                row.push(from[x]);
                assert(from@.take(x + 1) == from@.take(x as int).push(from@[x as int]));
                x += 1;
            }
            assert(from@.take(from.len() as int) == from@);
            cells.push(row);
            y += 1;
        }
        let universe = Self { size: self.size, cells };
        assert(universe@ =~~= self@);
        universe
    }
}

impl Universe {
    /// The width and the height that the grid was made with.
    pub closed spec fn extent(&self) -> SizeInt {
        self.size
    }

    /// Whether the grid has the rows and columns of its size. Every grid that
    /// this module hands out does.
    pub closed spec fn wf(&self) -> bool {
        is_grid(self@, self.size)
    }

    /// A well-formed universe is a grid of its size.
    pub proof fn lemma_is_grid(&self)
        requires
            self.wf(),
        ensures
            is_grid(self@, self.extent()),
    {
    }

    /// The grid of `size` that holds `cells`, which has to be that many rows
    /// of that many slots.
    pub fn new(size: SizeInt, cells: Vec<Vec<CellData>>) -> (universe: Self)
        requires
            is_grid(states(cells@), size),
        ensures
            universe.wf(),
            universe.extent() == size,
            universe@ == states(cells@),
    {
        Self { size, cells }
    }

    /// The grid of `size` without a live cell.
    pub fn dead(size: SizeInt) -> (universe: Self)
        ensures
            universe.wf(),
            universe.extent() == size,
            universe@ == uniform(size, CellState::Dead),
    {
        let mut cells: Vec<Vec<CellData>> = Vec::new();
        let mut y: u32 = 0;
        while y < size.height
            invariant
                y <= size.height,
                cells@.len() == y,
                forall|r: int|
                    0 <= r < y ==> (#[trigger] cells@[r])@ == Seq::new(
                        size.width as nat,
                        |x: int| CellData { state: CellState::Dead },
                    ),
            decreases size.height - y,
        {
            let mut row: Vec<CellData> = Vec::new();
            let mut x: u32 = 0;
            while x < size.width
                invariant
                    x <= size.width,
                    row@ == Seq::new(x as nat, |i: int| CellData { state: CellState::Dead }),
                decreases size.width - x,
            {
                row.push(CellData { state: CellState::Dead });
                x += 1;
            }
            cells.push(row);
            y += 1;
        }
        let universe = Self { size, cells };
        assert(universe@ =~~= uniform(size, CellState::Dead));
        universe
    }

    /// The width and the height of the grid.
    pub fn size(&self) -> (size: SizeInt)
        ensures
            size == self.extent(),
    {
        SizeInt::new(self.size.width, self.size.height)
    }

    /// The state of the cell in the slot `pos`.
    pub fn state_at(&self, pos: Position) -> (state: Result<CellState, BoundsViolation>)
        requires
            self.wf(),
        ensures
            match state {
                Ok(s) => inside(self.extent(), pos.x as int, pos.y as int) && s == self@[pos.y as int][pos.x as int],
                Err(e) => !inside(self.extent(), pos.x as int, pos.y as int) && e == (BoundsViolation {
                    x: pos.x as i64,
                    y: pos.y as i64,
                }),
            },
    {
        if pos.x < self.size.width && pos.y < self.size.height {
            assert(self@[pos.y as int].len() == self.size.width);
            Ok(self.cells[pos.y as usize][pos.x as usize].state)
        } else {
            Err(BoundsViolation { x: pos.x as i64, y: pos.y as i64 })
        }
    }

    /// Flips the cell in the slot `(x, y)`.
    fn flip(&mut self, x: u32, y: u32)
        requires
            old(self).wf(),
            x < old(self).size.width,
            y < old(self).size.height,
        ensures
            final(self).wf(),
            final(self).size == old(self).size,
            final(self)@ == toggled(old(self)@, x as int, y as int),
    {
        assert(self@[y as int].len() == self.size.width);
        let state = self.cells[y as usize][x as usize].state;
        self.cells[y as usize][x as usize].state = match state {
            CellState::Dead => CellState::Alive,
            CellState::Alive => CellState::Dead,
        };
        assert(self@ =~~= toggled(old(self)@, x as int, y as int));
    }

    /// Flips the cell in each of `positions`, a column and a row, in turn: a
    /// dead cell comes alive, a live one dies. Where one of them is not a slot
    /// of the grid, the first such is reported and no cell is flipped.
    pub fn toggle_cells_at(&mut self, positions: Vec<(u32, u32)>) -> (result: Result<
        (),
        BoundsViolation,
    >)
        requires
            old(self).wf(),
        ensures
            final(self).wf(),
            final(self).extent() == old(self).extent(),
            result is Ok <==> all_inside(old(self).extent(), positions@),
            result is Ok ==> final(self)@ == toggled_all(old(self)@, positions@),
            result is Err ==> final(self)@ == old(self)@,
            result matches Err(e) ==> names_first_outside(old(self).extent(), positions@, e),
    {
        let mut i: usize = 0;
        while i < positions.len()
            invariant
                i <= positions.len(),
                *self == *old(self),
                self.wf(),
                forall|j: int|
                    0 <= j < i ==> inside(
                        self.size,
                        (#[trigger] positions@[j]).0 as int,
                        positions@[j].1 as int,
                    ),
            decreases positions.len() - i,
        {
            let (x, y) = positions[i];
            if !(x < self.size.width && y < self.size.height) {
                let e = BoundsViolation { x: x as i64, y: y as i64 };
                assert(first_outside(self.size, positions@, i as int));
                assert(names_first_outside(old(self).extent(), positions@, e));
                return Err(e);
            }
            i += 1;
        }
        let mut i: usize = 0;
        while i < positions.len()
            invariant
                i <= positions.len(),
                self.wf(),
                self.size == old(self).size,
                forall|j: int|
                    0 <= j < positions@.len() ==> inside(
                        self.size,
                        (#[trigger] positions@[j]).0 as int,
                        positions@[j].1 as int,
                    ),
                self@ == toggled_all(old(self)@, positions@.take(i as int)),
            decreases positions.len() - i,
        {
            assert(positions@.take(i + 1).drop_last() == positions@.take(i as int));
            let (x, y) = positions[i];
            self.flip(x, y);
            i += 1;
        }
        assert(positions@.take(positions.len() as int) == positions@);
        Ok(())
    }

    /// Lays `pattern` down with its origin in the slot `anchor`: the slot
    /// that each of its cells falls on holds a live cell afterwards, and no
    /// other slot changes. Where a cell falls outside the grid, the first
    /// such is reported and no slot changes: the pattern is neither cut nor
    /// wrapped.
    pub fn apply_pattern(&mut self, pattern: &CellPattern, anchor: Position) -> (result: Result<
        (),
        BoundsViolation,
    >)
        requires
            old(self).wf(),
        ensures
            final(self).wf(),
            final(self).extent() == old(self).extent(),
            result is Ok <==> forall|i: int|
                0 <= i < pattern.cells@.len() ==> inside(
                    old(self).extent(),
                    anchor.x + (#[trigger] pattern.cells@[i]).x,
                    anchor.y + pattern.cells@[i].y,
                ),
            result is Ok ==> final(self)@ == laid_down(
                old(self)@,
                old(self).extent(),
                pattern.cells@,
                anchor,
            ),
            result is Err ==> final(self)@ == old(self)@,
            result matches Err(e) ==> names_first_to_fall_outside(
                old(self).extent(),
                pattern.cells@,
                anchor,
                e,
            ),
    {
        let ghost before = self@;
        let ghost offsets = pattern.cells@;
        let size = self.size;
        let mut i: usize = 0;
        while i < pattern.cells.len()
            invariant
                i <= pattern.cells.len(),
                *self == *old(self),
                self.wf(),
                size == self.size,
                offsets == pattern.cells@,
                forall|j: int|
                    0 <= j < i ==> inside(
                        size,
                        anchor.x + (#[trigger] offsets[j]).x,
                        anchor.y + offsets[j].y,
                    ),
            decreases pattern.cells.len() - i,
        {
            let offset = pattern.cells[i];
            let x: i64 = anchor.x as i64 + offset.x as i64;
            let y: i64 = anchor.y as i64 + offset.y as i64;
            if !(0 <= x && x < size.width as i64 && 0 <= y && y < size.height as i64) {
                let e = BoundsViolation { x, y };
                assert(first_to_fall_outside(size, offsets, anchor, i as int, e));
                return Err(e);
            }
            i += 1;
        }
        let mut i: usize = 0;
        assert(self@ =~~= laid_before(before, size, offsets, 0, anchor));
        while i < pattern.cells.len()
            invariant
                i <= pattern.cells.len(),
                self.wf(),
                self.size == size,
                offsets == pattern.cells@,
                is_grid(before, size),
                forall|j: int|
                    0 <= j < offsets.len() ==> inside(
                        size,
                        anchor.x + (#[trigger] offsets[j]).x,
                        anchor.y + offsets[j].y,
                    ),
                self@ == laid_before(before, size, offsets, i as int, anchor),
            decreases pattern.cells.len() - i,
        {
            let offset = pattern.cells[i];
            let x: usize = (anchor.x as i64 + offset.x as i64) as usize;
            let y: usize = (anchor.y as i64 + offset.y as i64) as usize;
            let ghost held = self@;
            assert(offsets[i as int] == offset);
            assert(held[y as int].len() == size.width);
            self.cells[y][x].state = CellState::Alive;
            proof {
                assert(self@ =~~= held.update(
                    y as int,
                    held[y as int].update(x as int, CellState::Alive),
                ));
                let goal = laid_before(before, size, offsets, i + 1, anchor);
                assert forall|r: int, c: int| inside(size, c, r) implies self@[r][c]
                    == goal[r][c] by {
                    lemma_covered_step(offsets, i as int, anchor, c, r);
                    assert(held[r][c] == if covered_before(offsets, i as int, anchor, c, r) {
                        CellState::Alive
                    } else {
                        before[r][c]
                    });
                }
                assert(self@ =~~= goal);
            }
            i += 1;
        }
        proof {
            assert forall|c: int, r: int|
                covered_before(offsets, offsets.len() as int, anchor, c, r) <==> covers(
                    offsets,
                    anchor,
                    c,
                    r,
                ) by {
                if covers(offsets, anchor, c, r) {
                    let k = choose|k: int| #[trigger] falls_on(offsets, k, anchor, c, r);
                    assert(falls_on(offsets, k, anchor, c, r) && k < offsets.len());
                }
            }
            assert(self@ =~~= laid_down(before, size, offsets, anchor));
        }
        Ok(())
    }

    /// A grid of `size` seeded at random: each cell is alive with the chance
    /// `life_chance`, decided by a draw of its own.
    pub fn generate(size: SizeInt, life_chance: LifeChance) -> (universe: Self)
        ensures
            universe.wf(),
            universe.extent() == size,
            life_chance@ == 0 ==> universe@ == uniform(size, CellState::Dead),
            life_chance@ == CERTAIN ==> universe@ == uniform(size, CellState::Alive),
    {
        let mut cells: Vec<Vec<CellData>> = Vec::new();
        let mut y: u32 = 0;
        while y < size.height
            invariant
                y <= size.height,
                cells@.len() == y,
                forall|r: int| 0 <= r < y ==> (#[trigger] cells@[r])@.len() == size.width,
                life_chance@ == 0 ==> forall|r: int, c: int|
                    0 <= r < y && 0 <= c < size.width ==> (#[trigger] cells@[r]@[c]).state
                        == CellState::Dead,
                life_chance@ == CERTAIN ==> forall|r: int, c: int|
                    0 <= r < y && 0 <= c < size.width ==> (#[trigger] cells@[r]@[c]).state
                        == CellState::Alive,
            decreases size.height - y,
        {
            let mut row: Vec<CellData> = Vec::new();
            let mut x: u32 = 0;
            while x < size.width
                invariant
                    x <= size.width,
                    row@.len() == x,
                    life_chance@ == 0 ==> forall|c: int|
                        0 <= c < x ==> (#[trigger] row@[c]).state == CellState::Dead,
                    life_chance@ == CERTAIN ==> forall|c: int|
                        0 <= c < x ==> (#[trigger] row@[c]).state == CellState::Alive,
                decreases size.width - x,
            {
                row.push(CellData::seeded(draw(), life_chance));
                x += 1;
            }
            cells.push(row);
            y += 1;
        }
        let universe = Self { size, cells };
        proof {
            if life_chance@ == 0 {
                assert(universe@ =~~= uniform(size, CellState::Dead));
            }
            if life_chance@ == CERTAIN {
                assert(universe@ =~~= uniform(size, CellState::Alive));
            }
        }
        universe
    }

    /// The grid as text: one line for each row, a filled square for a live
    /// cell and an empty one for a dead cell.
    pub fn render(&self) -> (text: String)
        requires
            self.wf(),
        ensures
            text@ == picture(self@),
    {
        let mut chars: Vec<char> = Vec::new();
        let mut y: usize = 0;
        while y < self.cells.len()
            invariant
                y <= self.cells.len(),
                self.wf(),
                chars@ == picture(self@.take(y as int)),
            decreases self.cells.len() - y,
        {
            let ghost above = chars@;
            let row = &self.cells[y];
            let mut x: usize = 0;
            while x < row.len()
                invariant
                    x <= row.len(),
                    y < self.cells.len(),
                    row == &self.cells[y as int],
                    chars@ == above + Seq::new(
                        x as nat,
                        |i: int| symbol(self@[y as int][i] == CellState::Alive),
                    ),
                decreases row.len() - x,
            {
                let alive = match row[x].state {
                    CellState::Dead => false,
                    CellState::Alive => true,
                };
                chars.push(symbol_of(alive));
                x += 1;
            }
            chars.push('\n');
            proof {
                let done = self@.take(y + 1);
                assert(done.drop_last() == self@.take(y as int));
                assert(done.last() == self@[y as int]);
                assert(chars@ =~= above + line(self@[y as int]));
            }
            y += 1;
        }
        assert(self@.take(self.cells.len() as int) == self@);
        text_of(chars)
    }

    /// 1 where the slot `(x, y)` holds a live cell, else 0.
    fn count_at(&self, x: u32, y: u32) -> (n: u8)
        requires
            self.wf(),
            x < self.size.width,
            y < self.size.height,
        ensures
            n == alive_at(self@, x as int, y as int),
    {
        assert(self@[y as int].len() == self.size.width);
        match self.cells[y as usize][x as usize].state {
            CellState::Dead => 0,
            CellState::Alive => 1,
        }
    }

    /// Counts the live cells in the eight slots around `(x, y)`.
    fn count_around(&self, x: u32, y: u32) -> (count: u8)
        requires
            self.wf(),
            x < self.size.width,
            y < self.size.height,
        ensures
            count == live_neighbors(self@, self.size, x as int, y as int),
            count <= 8,
    {
        let w: u64 = self.size.width as u64;
        let h: u64 = self.size.height as u64;
        let left: u32 = ((x as u64 + (w - 1)) % w) as u32;
        let right: u32 = ((x as u64 + 1) % w) as u32;
        let above: u32 = ((y as u64 + (h - 1)) % h) as u32;
        let below: u32 = ((y as u64 + 1) % h) as u32;
        proof {
            lemma_mod_add_multiples_vanish(x - 1, w as int);
            lemma_mod_add_multiples_vanish(y - 1, h as int);
            lemma_small_mod(x as nat, w as nat);
            lemma_small_mod(y as nat, h as nat);
        }
        self.count_at(left, above) + self.count_at(x, above) + self.count_at(right, above)
            + self.count_at(left, y) + self.count_at(right, y) + self.count_at(left, below)
            + self.count_at(x, below) + self.count_at(right, below)
    }

    /// Counts the live cells in the eight slots around `pos`. The grid has no
    /// edge: the slots around a cell in the first column include three of the
    /// last column, and so for the rows. A position outside the grid is
    /// rejected, not wrapped.
    pub fn live_neighbor_count(&self, pos: Position) -> (count: Result<u8, BoundsViolation>)
        requires
            self.wf(),
        ensures
            match count {
                Ok(n) => inside(self.extent(), pos.x as int, pos.y as int) && n == live_neighbors(
                    self@,
                    self.extent(),
                    pos.x as int,
                    pos.y as int,
                ) && n <= 8,
                Err(e) => !inside(self.extent(), pos.x as int, pos.y as int) && e == (BoundsViolation {
                    x: pos.x as i64,
                    y: pos.y as i64,
                }),
            },
    {
        if pos.x < self.size.width && pos.y < self.size.height {
            Ok(self.count_around(pos.x, pos.y))
        } else {
            Err(BoundsViolation { x: pos.x as i64, y: pos.y as i64 })
        }
    }

    /// Plays one generation. Every slot is judged by the grid as it was
    /// before the call: a live cell stays alive where its neighbour count is
    /// one of `allowed_neighbors` and dies elsewhere, a dead cell comes alive
    /// where its count is one of `allowed_neighbors_for_birth` and stays dead
    /// elsewhere.
    pub fn tick(&mut self, allowed_neighbors: &Vec<u8>, allowed_neighbors_for_birth: &Vec<u8>)
        requires
            old(self).wf(),
        ensures
            final(self).wf(),
            final(self).extent() == old(self).extent(),
            final(self)@ == next_generation(
                old(self)@,
                old(self).extent(),
                allowed_neighbors@,
                allowed_neighbors_for_birth@,
            ),
    {
        let ghost before = self@;
        let size = self.size;
        let ghost allowed = allowed_neighbors@;
        let ghost birth = allowed_neighbors_for_birth@;
        let mut next: Vec<Vec<CellData>> = Vec::new();
        let mut y: u32 = 0;
        while y < size.height
            invariant
                y <= size.height,
                self.wf(),
                self@ == before,
                self.size == size,
                allowed == allowed_neighbors@,
                birth == allowed_neighbors_for_birth@,
                next@.len() == y,
                forall|r: int|
                    0 <= r < y ==> (#[trigger] next@[r])@.len() == size.width,
                forall|r: int, c: int|
                    0 <= r < y && 0 <= c < size.width ==> (#[trigger] next@[r]@[c]).state
                        == next_state(before, size, allowed, birth, c, r),
            decreases size.height - y,
        {
            let mut row: Vec<CellData> = Vec::new();
            let mut x: u32 = 0;
            while x < size.width
                invariant
                    x <= size.width,
                    y < size.height,
                    self.wf(),
                    self@ == before,
                    self.size == size,
                    allowed == allowed_neighbors@,
                    birth == allowed_neighbors_for_birth@,
                    row@.len() == x,
                    forall|c: int|
                        0 <= c < x ==> (#[trigger] row@[c]).state == next_state(
                            before,
                            size,
                            allowed,
                            birth,
                            c,
                            y as int,
                        ),
                decreases size.width - x,
            {
                let alive = self.count_at(x, y) == 1;
                let count = self.count_around(x, y);
                let state = if decide(alive, count, allowed_neighbors, allowed_neighbors_for_birth) {
                    CellState::Alive
                } else {
                    CellState::Dead
                };
                row.push(CellData { state });
                x += 1;
            }
            next.push(row);
            y += 1;
        }
        self.cells = next;
        assert(self@ =~~= next_generation(before, size, allowed, birth));
    }
}

/// Whether one of the offsets below index `end`, laid down at `anchor`, falls
/// on the slot `(x, y)`.
spec fn covered_before(
    offsets: Seq<crate::utils::Position>,
    end: int,
    anchor: Position,
    x: int,
    y: int,
) -> bool {
    exists|i: int| #[trigger] falls_on(offsets, i, anchor, x, y) && i < end
}

/// `rows` with a live cell in every slot that one of the offsets below
/// index `end`, laid down at `anchor`, falls on.
spec fn laid_before(
    rows: Seq<Seq<CellState>>,
    size: SizeInt,
    offsets: Seq<crate::utils::Position>,
    end: int,
    anchor: Position,
) -> Seq<Seq<CellState>> {
    Seq::new(
        size.height as nat,
        |y: int|
            Seq::new(
                size.width as nat,
                |x: int|
                    if covered_before(offsets, end, anchor, x, y) {
                        CellState::Alive
                    } else {
                        rows[y][x]
                    },
            ),
    )
}

/// One more offset covers one more slot.
proof fn lemma_covered_step(
    offsets: Seq<crate::utils::Position>,
    end: int,
    anchor: Position,
    x: int,
    y: int,
)
    requires
        0 <= end < offsets.len(),
    ensures
        covered_before(offsets, end + 1, anchor, x, y) <==> covered_before(offsets, end, anchor, x, y)
            || falls_on(offsets, end, anchor, x, y),
{
    if covered_before(offsets, end + 1, anchor, x, y) {
        let i = choose|i: int| #[trigger] falls_on(offsets, i, anchor, x, y) && i < end + 1;
        if i < end {
            assert(covered_before(offsets, end, anchor, x, y));
        }
    }
    if covered_before(offsets, end, anchor, x, y) {
        let i = choose|i: int| #[trigger] falls_on(offsets, i, anchor, x, y) && i < end;
        assert(falls_on(offsets, i, anchor, x, y) && i < end + 1);
    }
    if falls_on(offsets, end, anchor, x, y) {
        assert(falls_on(offsets, end, anchor, x, y) && end < end + 1);
    }
}

} // verus!
