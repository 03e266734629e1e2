//! Chance in the seeding of a universe: how likely a cell is to start alive,
//! and the random draws that decide it.

use vstd::prelude::*;

verus! {

/// The chance that stands for certainty: a chance is a count of parts out of
/// this many.
pub const CERTAIN: u64 = 4294967296;

/// A chance outside the range from 0 to 1 was asked for.
#[derive(Debug, Clone, Copy, PartialEq, Eq, Structural)]
pub struct InvalidLifeChance {
    /// The parts that were asked for, more than [`CERTAIN`].
    pub parts: u64,
}

/// How likely a cell is to be alive when a universe is generated: a
/// probability between 0 and 1, held as a number of parts out of
/// [`CERTAIN`].
#[derive(Debug, Clone, Copy)]
pub struct LifeChance {
    parts: u64,
}

impl View for LifeChance {
    type V = int;

    /// The number of parts out of [`CERTAIN`].
    closed spec fn view(&self) -> int {
        self.parts as int
    }
}

impl Default for LifeChance {
    /// The chance of four in ten, to the nearest part below.
    fn default() -> (chance: Self)
        ensures
            chance@ == CERTAIN * 4 / 10,
    {
        LifeChance { parts: 1717986918 }
    }
}

impl LifeChance {
    #[verifier::type_invariant]
    spec fn in_range(self) -> bool {
        self.parts <= CERTAIN
    }

    /// The chance of `parts` out of [`CERTAIN`]. More parts than that are
    /// rejected, not clamped.
    pub fn new(parts: u64) -> (chance: Result<Self, InvalidLifeChance>)
        ensures
            match chance {
                Ok(c) => parts <= CERTAIN && c@ == parts,
                Err(e) => parts > CERTAIN && e.parts == parts,
            },
    {
        if parts <= CERTAIN {
            Ok(LifeChance { parts })
        } else {
            Err(InvalidLifeChance { parts })
        }
    }

    /// The chance under which no cell starts alive.
    pub fn never() -> (chance: Self)
        ensures
            chance@ == 0,
    {
        LifeChance { parts: 0 }
    }

    /// The chance under which every cell starts alive.
    pub fn always() -> (chance: Self)
        ensures
            chance@ == CERTAIN,
    {
        LifeChance { parts: CERTAIN }
    }

    /// The number of parts out of [`CERTAIN`].
    pub fn parts(&self) -> (parts: u64)
        ensures
            parts == self@,
            parts <= CERTAIN,
    {
        proof {
            use_type_invariant(self);
        }
        self.parts
    }

    /// Whether a cell starts alive on the draw `draw`: it does where the draw
    /// falls below the chance. Of the `CERTAIN` draws there are, as many do
    /// as the chance has parts.
    pub fn admits(&self, draw: u32) -> (alive: bool)
        ensures
            alive == (draw < self@),
    {
        (draw as u64) < self.parts
    }
}

/// Draws a number with `rand::random`, from the generator of the current
/// thread. Any `u32` may come back, each as likely as the others, and two
/// calls need not agree: the contract promises nothing of the result.
///
/// The call can stop the program where the operating system gives no
/// entropy, when the generator of a thread is first seeded or is seeded
/// anew. That is a fault of the machine, like running out of memory: it
/// depends on no argument, so no `requires` can rule it out.
#[verifier::external_body]
pub(crate) fn draw() -> u32 {
    rand::random::<u32>()
}

} // verus!
