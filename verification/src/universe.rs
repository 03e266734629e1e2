//! The unbounded universe: a sparse set of live cells.

use std::collections::HashSet;
use vstd::prelude::*;
use vstd::std_specs::iter::IteratorSpec;

use crate::cell_patterns::CellPattern;
use crate::rules::allows;
use crate::seeding::{draw, LifeChance, CERTAIN};
use crate::text::{symbol, symbol_of, text_of};
use crate::universe::laws::{lemma_live_neighbor_touches, lemma_nursery_size};
use crate::universe::model::{
    alive_at, bounds_of, in_nursery, laid_down, live_neighbors, next_generation, nursery,
    row_text, rows_text, shows, toggled, toggled_all,
};
use crate::utils::{adjacent, lemma_neighbors_touch, Position, SizeInt};

pub mod laws;
pub mod model;

verus! {

/// The smallest rectangle that holds a set of cells, by its four edges.
#[derive(Debug, Clone, Copy, PartialEq, Eq, Structural)]
pub struct Bounds {
    pub top: i32,
    pub right: i32,
    pub bottom: i32,
    pub left: i32,
}

impl Bounds {
    /// These bounds moved outwards by `padding` on every side.
    pub fn with_padding(&self, padding: i32) -> (padded: Self)
        requires
            i32::MIN <= self.top + padding <= i32::MAX,
            i32::MIN <= self.right + padding <= i32::MAX,
            i32::MIN <= self.bottom - padding <= i32::MAX,
            i32::MIN <= self.left - padding <= i32::MAX,
        ensures
            padded.top == self.top + padding,
            padded.right == self.right + padding,
            padded.bottom == self.bottom - padding,
            padded.left == self.left - padding,
    {
        Self {
            top: self.top + padding,
            right: self.right + padding,
            bottom: self.bottom - padding,
            left: self.left - padding,
        }
    }

    /// The distance between the left and the right edge, and between the
    /// bottom and the top edge.
    pub fn size(&self) -> (size: SizeInt)
        requires
            -i32::MAX <= self.left - self.right <= i32::MAX,
            -i32::MAX <= self.top - self.bottom <= i32::MAX,
        ensures
            size.width == vstd::math::abs(self.left - self.right),
            size.height == vstd::math::abs(self.top - self.bottom),
    {
        let across: i32 = self.left - self.right;
        let up: i32 = self.top - self.bottom;
        SizeInt::new(if across < 0 { -across } else { across }, if up < 0 { -up } else { up })
    }
}

/// The cells that are alive in one generation. A position that is not held
/// is dead.
#[derive(Debug)]
pub struct Universe {
    cells: HashSet<u64>,
}

impl View for Universe {
    type V = Set<Position>;

    /// The set of live cells.
    closed spec fn view(&self) -> Set<Position> {
        Set::new(|p: Position| self.cells@.contains(key_of(p)))
    }
}

/// The key under which a live cell is stored: both coordinates, each moved
/// into the non-negative range, side by side in one integer.
#[verifier::opaque]
spec fn key_of(p: Position) -> u64 {
    ((p.x + 2147483648) * 4294967296 + (p.y + 2147483648)) as u64
}

/// The position that is stored under `key`.
#[verifier::opaque]
spec fn position_of(key: u64) -> Position {
    Position {
        x: (key / 4294967296 - 2147483648) as i32,
        y: (key % 4294967296 - 2147483648) as i32,
    }
}

/// Keys and positions correspond one to one.
proof fn lemma_keys_are_positions()
    ensures
        forall|p: Position| position_of(#[trigger] key_of(p)) == p,
        forall|k: u64| key_of(#[trigger] position_of(k)) == k,
{
    reveal(key_of);
    reveal(position_of);
}

fn encode(p: Position) -> (key: u64)
    ensures
        key == key_of(p),
{
    reveal(key_of);
    let x: u64 = (p.x as i64 + 2147483648) as u64;
    let y: u64 = (p.y as i64 + 2147483648) as u64;
    x * 4294967296 + y
}

fn decode(key: u64) -> (p: Position)
    ensures
        p == position_of(key),
{
    reveal(position_of);
    let x: i64 = (key / 4294967296) as i64 - 2147483648;
    let y: i64 = (key % 4294967296) as i64 - 2147483648;
    Position { x: x as i32, y: y as i32 }
}

impl Default for Universe {
    /// The universe without a live cell.
    fn default() -> (universe: Self)
        ensures
            universe@ == Set::<Position>::empty(),
    {
        let universe = Universe { cells: HashSet::new() };
        assert(universe@ =~= Set::<Position>::empty());
        universe
    }
}

impl Clone for Universe {
    fn clone(&self) -> (universe: Self)
        ensures
            universe@ == self@,
    {
        let mut keys: HashSet<u64> = HashSet::new();
        for key in it: self.cells.iter()
            invariant
                forall|k: u64| keys@.contains(k) <==> occurs_before(it.seq().unref(), it.index(), k),
        {
            keys.insert(*key);
            assert forall|k: u64| keys@.contains(k) <==> occurs_before(
                it.seq().unref(),
                it.index() + 1,
                k,
            ) by {
                if k == *key {
                    assert(it.seq().unref()[it.index()] == k);
                }
            }
        }
        let universe = Universe { cells: keys };
        proof {
            let all = self.cells.iter().remaining();
            assert(all.unref().to_set() == self.cells@);
            assert(universe.cells@ =~= self.cells@);
        }
        universe
    }
}

impl Universe {
    /// A universe in which exactly the given cells are alive.
    pub fn new(cells: Vec<Position>) -> (universe: Self)
        ensures
            universe@ == cells@.to_set(),
    {
        let mut keys: HashSet<u64> = HashSet::new();
        let mut i: usize = 0;
        while i < cells.len()
            invariant
                i <= cells.len(),
                forall|k: u64| keys@.contains(k) <==> occurs_before(cells@, i as int, position_of(k)),
            decreases cells.len() - i,
        {
            keys.insert(encode(cells[i]));
            assert forall|k: u64| keys@.contains(k) <==> occurs_before(
                cells@,
                i + 1,
                position_of(k),
            ) by {
                lemma_keys_are_positions();
                if k == key_of(cells@[i as int]) {
                    assert(cells@[i as int] == position_of(k));
                }
            }
            i += 1;
        }
        let universe = Universe { cells: keys };
        proof {
            lemma_keys_are_positions();
            assert(universe@ =~= cells@.to_set());
        }
        universe
    }

    /// Whether the cell at `pos` is alive.
    pub fn is_alive(&self, pos: Position) -> (alive: bool)
        ensures
            alive == self@.contains(pos),
    {
        let key = encode(pos);
        self.cells.contains(&key)
    }

    /// The live cells, each once, in no particular order.
    pub fn live_cells(&self) -> (cells: Vec<Position>)
        ensures
            cells@.to_set() == self@,
            cells@.no_duplicates(),
    {
        let mut cells: Vec<Position> = Vec::new();
        for key in it: self.cells.iter()
            invariant
                cells@.len() == it.index(),
                forall|j: int| 0 <= j < cells@.len() ==> cells@[j] == position_of(*it.seq()[j]),
        {
            cells.push(decode(*key));
        }
        proof {
            lemma_keys_are_positions();
            let keys = self.cells.iter().remaining();
            assert(keys.unref().to_set() == self.cells@);
            assert(keys.no_duplicates());
            assert forall|i: int, j: int| 0 <= i < cells@.len() && 0 <= j < cells@.len() && i != j
                implies cells@[i] != cells@[j] by {
                assert(key_of(cells@[i]) == *keys[i]);
                assert(key_of(cells@[j]) == *keys[j]);
            }
            assert forall|p: Position| cells@.to_set().contains(p) <==> self@.contains(p) by {
                if cells@.contains(p) {
                    let j = choose|j: int| 0 <= j < cells@.len() && cells@[j] == p;
                    assert(keys.unref()[j] == key_of(p));
                    assert(keys.unref().to_set().contains(key_of(p)));
                }
                if self@.contains(p) {
                    assert(keys.unref().to_set().contains(key_of(p)));
                    let j = choose|j: int| 0 <= j < keys.len() && keys.unref()[j] == key_of(p);
                    assert(cells@[j] == p);
                }
            }
            assert(cells@.to_set() =~= self@);
        }
        cells
    }

    /// The smallest rectangle that holds every live cell. Of a universe
    /// without live cells it is the rectangle of size zero at the origin.
    pub fn bounds(&self) -> (bounds: Bounds)
        ensures
            bounds_of(self@, bounds),
    {
        let live = self.live_cells();
        if live.len() == 0 {
            assert(self@ =~= Set::<Position>::empty());
            return Bounds { top: 0, right: 0, bottom: 0, left: 0 };
        }
        let first = live[0];
        let mut bounds = Bounds { top: first.y, right: first.x, bottom: first.y, left: first.x };
        let mut i: usize = 1;
        while i < live.len()
            invariant
                1 <= i <= live.len(),
                forall|j: int|
                    0 <= j < i ==> bounds.left <= (#[trigger] live@[j]).x <= bounds.right
                        && bounds.bottom <= live@[j].y <= bounds.top,
                exists|j: int| 0 <= j < i && (#[trigger] live@[j]).y == bounds.top,
                exists|j: int| 0 <= j < i && (#[trigger] live@[j]).x == bounds.right,
                exists|j: int| 0 <= j < i && (#[trigger] live@[j]).y == bounds.bottom,
                exists|j: int| 0 <= j < i && (#[trigger] live@[j]).x == bounds.left,
            decreases live.len() - i,
        {
            let pos = live[i];
            if pos.y > bounds.top {
                bounds.top = pos.y;
            }
            if pos.y < bounds.bottom {
                bounds.bottom = pos.y;
            }
            if pos.x < bounds.left {
                bounds.left = pos.x;
            }
            if pos.x > bounds.right {
                bounds.right = pos.x;
            }
            i += 1;
        }
        proof {
            assert(live@.to_set().contains(live@[0]));
            assert forall|p: Position| #[trigger] self@.contains(p) implies bounds.left <= p.x
                <= bounds.right && bounds.bottom <= p.y <= bounds.top by {
                assert(live@.to_set().contains(p));
                let j = choose|j: int| 0 <= j < live@.len() && live@[j] == p;
                assert(live@[j] == p);
            }
            let t = choose|j: int| 0 <= j < i && (#[trigger] live@[j]).y == bounds.top;
            assert(live@.to_set().contains(live@[t]));
            let r = choose|j: int| 0 <= j < i && (#[trigger] live@[j]).x == bounds.right;
            assert(live@.to_set().contains(live@[r]));
            let b = choose|j: int| 0 <= j < i && (#[trigger] live@[j]).y == bounds.bottom;
            assert(live@.to_set().contains(live@[b]));
            let l = choose|j: int| 0 <= j < i && (#[trigger] live@[j]).x == bounds.left;
            assert(live@.to_set().contains(live@[l]));
        }
        bounds
    }

    /// The universe as text: the rows of its bounds from the top down, each
    /// after a line feed, a filled square for a live cell and an empty one
    /// for a dead cell. A universe without live cells is the empty text.
    pub fn render(&self) -> (text: String)
        ensures
            shows(self@, text@),
    {
        let mut chars: Vec<char> = Vec::new();
        let bounds = self.bounds();
        if self.cells.is_empty() {
            proof {
                lemma_keys_are_positions();
                assert(self@ =~= Set::<Position>::empty());
            }
            return text_of(chars);
        }
        proof {
            lemma_keys_are_positions();
            let k = choose|k: u64| self.cells@.contains(k);
            assert(self@.contains(position_of(k)));
            assert(!(self@ =~= Set::<Position>::empty()));
            let p = choose|p: Position| #[trigger] self@.contains(p) && p.y == bounds.top;
            assert(bounds.bottom <= p.y);
            assert(bounds.left <= p.x <= bounds.right);
        }
        let mut y: i64 = bounds.top as i64;
        while y >= bounds.bottom as i64
            invariant
                bounds.bottom - 1 <= y <= bounds.top,
                bounds.left <= bounds.right,
                chars@ == rows_text(self@, bounds, (bounds.top - y) as nat),
            decreases y - bounds.bottom + 1,
        {
            chars.push('\n');
            let ghost above = chars@;
            let mut x: i64 = bounds.left as i64;
            while x <= bounds.right as i64
                invariant
                    bounds.left <= x <= bounds.right + 1,
                    bounds.bottom <= y <= bounds.top,
                    chars@ == above + Seq::new(
                        (x - bounds.left) as nat,
                        |i: int| symbol(alive_at(self@, bounds.left + i, y as int) == 1),
                    ),
                decreases bounds.right - x + 1,
            {
                chars.push(symbol_of(self.count_at(x, y) == 1));
                x += 1;
            }
            assert(chars@ =~= above + row_text(self@, bounds, y as int));
            y -= 1;
        }
        text_of(chars)
    }

    /// Flips the cell at `pos`.
    fn toggle(&mut self, pos: Position)
        ensures
            final(self)@ == toggled(old(self)@, pos),
    {
        let key = encode(pos);
        if self.cells.contains(&key) {
            self.cells.remove(&key);
        } else {
            self.cells.insert(key);
        }
        proof {
            lemma_keys_are_positions();
            assert(self@ =~= toggled(old(self)@, pos));
        }
    }

    /// Flips each of `positions` in turn: a dead cell comes alive, a live one
    /// dies.
    pub fn toggle_cells_at(&mut self, positions: Vec<Position>)
        ensures
            final(self)@ == toggled_all(old(self)@, positions@),
    {
        let mut i: usize = 0;
        while i < positions.len()
            invariant
                i <= positions.len(),
                self@ == toggled_all(old(self)@, positions@.take(i as int)),
            decreases positions.len() - i,
        {
            assert(positions@.take(i + 1).drop_last() == positions@.take(i as int));
            self.toggle(positions[i]);
            i += 1;
        }
        assert(positions@.take(positions.len() as int) == positions@);
    }

    /// Lays `pattern` down at `anchor`: each of its cells, moved by the
    /// anchor, is alive afterwards, and no other cell changes. A cell that
    /// would fall outside the coordinate range is dropped.
    pub fn apply_pattern(&mut self, pattern: &CellPattern, anchor: Position)
        ensures
            final(self)@ == old(self)@.union(
                Set::new(|p: Position| laid_down(pattern.cells@, anchor, p)),
            ),
    {
        let ghost before = self@;
        let ghost offsets = pattern.cells@;
        let mut i: usize = 0;
        while i < pattern.cells.len()
            invariant
                i <= pattern.cells.len(),
                offsets == pattern.cells@,
                self@ == before.union(laid_set(offsets, i as int, anchor)),
            decreases pattern.cells.len() - i,
        {
            let offset = pattern.cells[i];
            let x: i64 = anchor.x as i64 + offset.x as i64;
            let y: i64 = anchor.y as i64 + offset.y as i64;
            let ghost held = self@;
            if -2147483648 <= x && x <= 2147483647 && -2147483648 <= y && y <= 2147483647 {
                self.cells.insert(encode(Position { x: x as i32, y: y as i32 }));
                proof {
                    lemma_keys_are_positions();
                    assert(self@ =~= held.insert(Position { x: x as i32, y: y as i32 }));
                }
            }
            proof {
                assert forall|p: Position|
                    self@.contains(p) <==> before.contains(p) || laid_before(
                        offsets,
                        i + 1,
                        anchor,
                        p,
                    ) by {
                    lemma_laid_before_step(offsets, i as int, anchor, p);
                    assert(offsets[i as int] == offset);
                }
                assert(self@ =~= before.union(laid_set(offsets, i + 1, anchor)));
            }
            i += 1;
        }
        proof {
            assert forall|p: Position|
                laid_before(offsets, offsets.len() as int, anchor, p) <==> laid_down(
                    offsets,
                    anchor,
                    p,
                ) by {
                if laid_before(offsets, offsets.len() as int, anchor, p) {
                    let k = choose|k: int| lies_at(offsets, k, anchor, p) && k < offsets.len();
                    assert(p.x == anchor.x + offsets[k].x);
                }
                if laid_down(offsets, anchor, p) {
                    let k = choose|k: int|
                        0 <= k < offsets.len() && p.x == anchor.x + (#[trigger] offsets[k]).x
                            && p.y == anchor.y + offsets[k].y;
                    assert(lies_at(offsets, k, anchor, p));
                }
            }
            assert(laid_set(offsets, offsets.len() as int, anchor) =~= Set::new(
                |p: Position| laid_down(offsets, anchor, p),
            ));
        }
    }

    /// Seeds the cell at `pos` with the draw `draw`: the cell comes alive
    /// where `life_chance` admits the draw, and nothing changes where it does
    /// not.
    pub fn seed(&mut self, pos: Position, draw: u32, life_chance: LifeChance)
        ensures
            final(self)@ == if draw < life_chance@ {
                old(self)@.insert(pos)
            } else {
                old(self)@
            },
    {
        if life_chance.admits(draw) {
            self.cells.insert(encode(pos));
            proof {
                lemma_keys_are_positions();
                assert(self@ =~= old(self)@.insert(pos));
            }
        }
    }

    /// A universe seeded at random: each cell of the rectangle of `size`
    /// around the origin, `size.width` columns of `size.height` cells, is
    /// alive with the chance `life_chance`, decided by a draw of its own. No
    /// cell outside that rectangle is alive, and a size with a side that is
    /// not positive gives the empty universe.
    pub fn generate(size: SizeInt, life_chance: LifeChance) -> (universe: Self)
        ensures
            forall|p: Position| #[trigger] universe@.contains(p) ==> in_nursery(size, p),
            life_chance@ == 0 ==> universe@ == Set::<Position>::empty(),
            life_chance@ == CERTAIN ==> universe@ == nursery(size),
            life_chance@ == CERTAIN && size.width >= 0 && size.height >= 0 ==> universe@.len()
                == size.width * size.height,
    {
        let mut universe = Universe::default();
        proof {
            lemma_nursery_size(size);
        }
        if size.width <= 0 || size.height <= 0 {
            assert(universe@ =~= nursery(size));
            assert(size.width >= 0 && size.height >= 0 ==> size.width * size.height == 0)
                by (nonlinear_arith)
                requires
                    size.width <= 0 || size.height <= 0,
            ;
            return universe;
        }
        let left: i32 = -(size.width / 2);
        let right: i32 = left + size.width;
        let bottom: i32 = -(size.height / 2);
        let top: i32 = bottom + size.height;
        let mut y: i32 = bottom;
        while y < top
            invariant
                size.width > 0 && size.height > 0,
                left == -(size.width / 2) && right == left + size.width,
                bottom == -(size.height / 2) && top == bottom + size.height,
                bottom <= y <= top,
                forall|p: Position| #[trigger]
                    universe@.contains(p) ==> in_nursery(size, p) && p.y < y,
                life_chance@ == 0 ==> universe@ == Set::<Position>::empty(),
                life_chance@ == CERTAIN ==> forall|p: Position|
                    in_nursery(size, p) && p.y < y ==> #[trigger] universe@.contains(p),
            decreases top - y,
        {
            let mut x: i32 = left;
            while x < right
                invariant
                    size.width > 0 && size.height > 0,
                    left == -(size.width / 2) && right == left + size.width,
                    bottom == -(size.height / 2) && top == bottom + size.height,
                    bottom <= y < top,
                    left <= x <= right,
                    forall|p: Position| #[trigger]
                        universe@.contains(p) ==> in_nursery(size, p) && (p.y < y || (p.y == y
                            && p.x < x)),
                    life_chance@ == 0 ==> universe@ == Set::<Position>::empty(),
                    life_chance@ == CERTAIN ==> forall|p: Position|
                        in_nursery(size, p) && (p.y < y || (p.y == y && p.x < x))
                            ==> #[trigger] universe@.contains(p),
                decreases right - x,
            {
                universe.seed(Position::new(x, y), draw(), life_chance);
                x += 1;
            }
            y += 1;
        }
        proof {
            if life_chance@ == CERTAIN {
                assert(universe@ =~= nursery(size));
            }
        }
        universe
    }

    /// Plays one generation. Every cell is judged by the generation before
    /// the call, never by what the call has already decided: a live cell dies
    /// unless its neighbour count is one of `allowed_neighbors`, and a dead
    /// cell that touches a live one is born where its count is one of
    /// `allowed_neighbors_for_birth`. A dead cell is judged once, however many
    /// live cells it touches.
    pub fn tick(&mut self, allowed_neighbors: &Vec<u8>, allowed_neighbors_for_birth: &Vec<u8>)
        ensures
            final(self)@ == next_generation(
                old(self)@,
                allowed_neighbors@,
                allowed_neighbors_for_birth@,
            ),
    {
        let ghost before = self@;
        let ghost due = due_cells(before, allowed_neighbors@, allowed_neighbors_for_birth@);
        let live = self.live_cells();
        let mut next: HashSet<u64> = HashSet::new();
        let mut visited: HashSet<u64> = HashSet::new();
        let mut i: usize = 0;
        while i < live.len()
            invariant
                i <= live.len(),
                self@ == before,
                live@.to_set() == before,
                due == due_cells(before, allowed_neighbors@, allowed_neighbors_for_birth@),
                sound(next@, due),
                forall|j: int|
                    0 <= j < i && due.contains(#[trigger] live@[j]) ==> next@.contains(
                        key_of(live@[j]),
                    ),
                forall|j: int, q: Position|
                    0 <= j < i && #[trigger] adjacent(live@[j], q) && !before.contains(q)
                        && due.contains(q) ==> next@.contains(key_of(q)),
                judged(visited@, next@, before, due),
            decreases live.len() - i,
        {
            let pos = live[i];
            assert(live@.to_set().contains(pos));
            let count = self.live_neighbor_count(pos);
            proof {
                lemma_kept_by_count(before, allowed_neighbors@, allowed_neighbors_for_birth@, pos);
            }
            if allows(allowed_neighbors, count) {
                proof {
                    lemma_insert_keeps(next@, visited@, before, due, pos);
                }
                next.insert(encode(pos));
            }
            let around = pos.neighbors();
            proof {
                assert forall|q: Position| around@.contains(q) <==> adjacent(pos, q) by {
                    lemma_neighbors_touch(pos, q);
                }
            }
            let mut j: usize = 0;
            while j < around.len()
                invariant
                    j <= around.len(),
                    i < live.len(),
                    pos == live@[i as int],
                    before.contains(pos),
                    forall|q: Position| around@.contains(q) <==> adjacent(pos, q),
                    self@ == before,
                    due == due_cells(before, allowed_neighbors@, allowed_neighbors_for_birth@),
                    sound(next@, due),
                    forall|j: int|
                        0 <= j <= i && due.contains(#[trigger] live@[j]) ==> next@.contains(
                            key_of(live@[j]),
                        ),
                    forall|j: int, q: Position|
                        0 <= j < i && #[trigger] adjacent(live@[j], q) && !before.contains(q)
                            && due.contains(q) ==> next@.contains(key_of(q)),
                    forall|m: int|
                        0 <= m < j && !before.contains(#[trigger] around@[m]) && due.contains(
                            around@[m],
                        ) ==> next@.contains(key_of(around@[m])),
                    judged(visited@, next@, before, due),
                decreases around.len() - j,
            {
                let near = around[j];
                let key = encode(near);
                proof {
                    assert(around@.contains(near));
                    lemma_keys_are_positions();
                }
                if !visited.contains(&key) && !self.is_alive(near) {
                    let near_count = self.live_neighbor_count(near);
                    proof {
                        lemma_born_by_count(
                            before,
                            allowed_neighbors@,
                            allowed_neighbors_for_birth@,
                            pos,
                            near,
                        );
                    }
                    if allows(allowed_neighbors_for_birth, near_count) {
                        proof {
                            lemma_insert_keeps(next@, visited@, before, due, near);
                        }
                        next.insert(key);
                    }
                    visited.insert(key);
                }
                j += 1;
            }
            proof {
                assert forall|q: Position|
                    #[trigger] adjacent(pos, q) && !before.contains(q) && due.contains(
                        q,
                    ) implies next@.contains(key_of(q)) by {
                    lemma_neighbors_touch(pos, q);
                    let m = choose|m: int| 0 <= m < around@.len() && around@[m] == q;
                    assert(around@[m] == q);
                }
            }
            i += 1;
        }
        self.cells = next;
        proof {
            lemma_keys_are_positions();
            assert forall|p: Position| self@.contains(p) <==> due.contains(p) by {
                if due.contains(p) {
                    if before.contains(p) {
                        let j = choose|j: int| 0 <= j < live@.len() && live@[j] == p;
                        assert(live@[j] == p);
                    } else {
                        reveal(due_cells);
                        lemma_live_neighbor_touches(before, p);
                        let q = choose|q: Position| before.contains(q) && #[trigger] adjacent(p, q);
                        assert(live@.to_set().contains(q));
                        let j = choose|j: int| 0 <= j < live@.len() && live@[j] == q;
                        assert(adjacent(live@[j], p));
                    }
                }
            }
            assert(self@ =~= due);
            reveal(due_cells);
        }
    }

    /// 1 where `(x, y)` is alive, else 0.
    fn count_at(&self, x: i64, y: i64) -> (n: u8)
        ensures
            n == alive_at(self@, x as int, y as int),
    {
        if -2147483648 <= x && x <= 2147483647 && -2147483648 <= y && y <= 2147483647 {
            if self.is_alive(Position { x: x as i32, y: y as i32 }) {
                1
            } else {
                0
            }
        } else {
            0
        }
    }

    /// Counts the live cells among the eight around `pos`. The universe has no
    /// edge to wrap at: a neighbour is counted where it is.
    pub fn live_neighbor_count(&self, pos: Position) -> (count: u8)
        ensures
            count == live_neighbors(self@, pos),
            count <= 8,
    {
        let x: i64 = pos.x as i64;
        let y: i64 = pos.y as i64;
        self.count_at(x - 1, y - 1) + self.count_at(x, y - 1) + self.count_at(x + 1, y - 1)
            + self.count_at(x - 1, y) + self.count_at(x + 1, y) + self.count_at(x - 1, y + 1)
            + self.count_at(x, y + 1) + self.count_at(x + 1, y + 1)
    }
}

/// Whether `item` stands in `items` at an index below `end`.
spec fn occurs_before<T>(items: Seq<T>, end: int, item: T) -> bool {
    exists|j: int| 0 <= j < end && j < items.len() && items[j] == item
}

/// Whether `p` is the anchor moved by the offset at index `i`.
spec fn lies_at(offsets: Seq<Position>, i: int, anchor: Position, p: Position) -> bool {
    &&& 0 <= i < offsets.len()
    &&& p.x == anchor.x + offsets[i].x
    &&& p.y == anchor.y + offsets[i].y
}

/// Whether `p` is the anchor moved by one of the offsets below index `end`.
spec fn laid_before(offsets: Seq<Position>, end: int, anchor: Position, p: Position) -> bool {
    exists|i: int| #[trigger] lies_at(offsets, i, anchor, p) && i < end
}

/// The cells that the offsets below index `end` lay down.
spec fn laid_set(offsets: Seq<Position>, end: int, anchor: Position) -> Set<Position> {
    Set::new(|p: Position| laid_before(offsets, end, anchor, p))
}

/// One more offset lays down one more cell.
proof fn lemma_laid_before_step(offsets: Seq<Position>, end: int, anchor: Position, p: Position)
    requires
        0 <= end < offsets.len(),
    ensures
        laid_before(offsets, end + 1, anchor, p) <==> laid_before(offsets, end, anchor, p)
            || lies_at(offsets, end, anchor, p),
{
    if laid_before(offsets, end + 1, anchor, p) {
        let i = choose|i: int| #[trigger] lies_at(offsets, i, anchor, p) && i < end + 1;
        if i < end {
            assert(laid_before(offsets, end, anchor, p));
        }
    }
    if laid_before(offsets, end, anchor, p) {
        let i = choose|i: int| #[trigger] lies_at(offsets, i, anchor, p) && i < end;
        assert(lies_at(offsets, i, anchor, p) && i < end + 1);
    }
    if lies_at(offsets, end, anchor, p) {
        assert(lies_at(offsets, end, anchor, p) && end < end + 1);
    }
}

/// Whether every key of `next` stands for a cell of `due`.
spec fn sound(next: Set<u64>, due: Set<Position>) -> bool {
    forall|k: u64| #[trigger] next.contains(k) ==> due.contains(position_of(k))
}

/// Whether every key of `visited` stands for a dead cell of `before` whose
/// fate is settled: it is in `next` if it is in `due`.
spec fn judged(visited: Set<u64>, next: Set<u64>, before: Set<Position>, due: Set<Position>) -> bool {
    forall|k: u64| #[trigger]
        visited.contains(k) ==> !before.contains(position_of(k)) && (due.contains(position_of(k))
            ==> next.contains(k))
}

/// Putting a cell of `due` into `next` keeps `next` sound and the visited
/// cells judged.
proof fn lemma_insert_keeps(
    next: Set<u64>,
    visited: Set<u64>,
    before: Set<Position>,
    due: Set<Position>,
    p: Position,
)
    requires
        sound(next, due),
        judged(visited, next, before, due),
        due.contains(p),
    ensures
        sound(next.insert(key_of(p)), due),
        judged(visited, next.insert(key_of(p)), before, due),
{
    lemma_keys_are_positions();
}

/// The generation after `live`, for the proof of one step of the game.
#[verifier::opaque]
spec fn due_cells(live: Set<Position>, allowed: Seq<u8>, birth: Seq<u8>) -> Set<Position> {
    next_generation(live, allowed, birth)
}

/// A live cell stays alive exactly where its neighbour count is one of
/// `allowed`.
proof fn lemma_kept_by_count(live: Set<Position>, allowed: Seq<u8>, birth: Seq<u8>, p: Position)
    requires
        live.contains(p),
    ensures
        due_cells(live, allowed, birth).contains(p) <==> allowed.contains(
            live_neighbors(live, p) as u8,
        ),
{
    reveal(due_cells);
}

/// A dead cell that touches a live one is born exactly where its neighbour
/// count is one of `birth`.
proof fn lemma_born_by_count(
    live: Set<Position>,
    allowed: Seq<u8>,
    birth: Seq<u8>,
    p: Position,
    q: Position,
)
    requires
        live.contains(p),
        adjacent(p, q),
        !live.contains(q),
    ensures
        due_cells(live, allowed, birth).contains(q) <==> birth.contains(
            live_neighbors(live, q) as u8,
        ),
{
    reveal(due_cells);
    lemma_live_neighbor_touches(live, q);
    assert(adjacent(q, p));
}

} // verus!
