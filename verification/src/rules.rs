//! The rule of the game: which neighbour counts let a cell live.

use vstd::prelude::*;

verus! {

/// The state of a cell in the next generation under the plain rule: a live
/// cell stays alive where its neighbour count is one of `allowed`, a dead one
/// comes alive where its count is one of `birth`.
pub open spec fn lives_on(alive: bool, neighbors: int, allowed: Seq<u8>, birth: Seq<u8>) -> bool {
    if alive {
        allowed.contains(neighbors as u8)
    } else {
        birth.contains(neighbors as u8)
    }
}

/// Whether `count` is one of `rules`.
pub fn allows(rules: &Vec<u8>, count: u8) -> (allowed: bool)
    ensures
        allowed == rules@.contains(count),
{
    let mut i: usize = 0;
    while i < rules.len()
        invariant
            i <= rules.len(),
            forall|j: int| 0 <= j < i ==> rules@[j] != count,
        decreases rules.len() - i,
    {
        if rules[i] == count {
            return true;
        }
        i += 1;
    }
    false
}

/// Decides the next state of one cell from its state and its count of live
/// neighbours.
pub fn decide(alive: bool, count: u8, allowed: &Vec<u8>, birth: &Vec<u8>) -> (next: bool)
    ensures
        next == lives_on(alive, count as int, allowed@, birth@),
{
    if alive {
        allows(allowed, count)
    } else {
        allows(birth, count)
    }
}

} // verus!
