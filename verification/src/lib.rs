//! Conway's game of life: cell storage, neighbour counting and the
//! generation rule, for an unbounded universe and for a wrapping grid.

use vstd::prelude::*;

use crate::seeding::{LifeChance, CERTAIN};
use crate::utils::SizeInt;

pub mod cell_patterns;
pub mod grid;
pub mod rules;
pub mod seeding;
pub mod text;
pub mod universe;
pub mod utils;

verus! {

/// The settings of a simulation: how it is stepped, and how its first
/// universe is made.
pub struct SimulationConfig {
    /// Extra padding added to the universe's bounds.
    pub bound_padding: i32,
    /// How often the universe updates: the time from one generation to the
    /// next, in milliseconds.
    pub tick_speed_millis: u64,
    pub paused: bool,
    /// How many neighbors a cell can live with.
    pub allowed_neighbors: Vec<u8>,
    /// How many neighbors are required for a dead cell to become a live cell,
    /// as if by reproduction.
    pub allowed_neighbors_for_birth: Vec<u8>,
    pub generation: GenerationConfig,
}

impl Default for SimulationConfig {
    /// The game as Conway set it: a cell lives on with two or three
    /// neighbours and is born with three. Two generations a second.
    fn default() -> (config: Self)
        ensures
            config.bound_padding == 5,
            config.tick_speed_millis == 500,
            !config.paused,
            config.allowed_neighbors@ == seq![2u8, 3u8],
            config.allowed_neighbors_for_birth@ == seq![3u8],
            config.generation.initial_size == (SizeInt { width: 32, height: 32 }),
            config.generation.life_chance@ == CERTAIN * 4 / 10,
    {
        let mut allowed_neighbors: Vec<u8> = Vec::new();
        allowed_neighbors.push(2);
        allowed_neighbors.push(3);
        let mut allowed_neighbors_for_birth: Vec<u8> = Vec::new();
        allowed_neighbors_for_birth.push(3);
        assert(allowed_neighbors@ =~= seq![2u8, 3u8]);
        assert(allowed_neighbors_for_birth@ =~= seq![3u8]);
        Self {
            bound_padding: 5,
            tick_speed_millis: 500,
            paused: false,
            allowed_neighbors,
            allowed_neighbors_for_birth,
            generation: GenerationConfig::default(),
        }
    }
}

/// Configuration for universe generation.
pub struct GenerationConfig {
    /// The initial size of the universe.
    pub initial_size: SizeInt,
    /// How likely it is for a cell to be alive when generating the universe.
    pub life_chance: LifeChance,
}

impl Default for GenerationConfig {
    /// A universe of 32 by 32 cells, of which four in ten are alive.
    fn default() -> (config: Self)
        ensures
            config.initial_size == (SizeInt { width: 32, height: 32 }),
            config.life_chance@ == CERTAIN * 4 / 10,
    {
        Self { initial_size: SizeInt::new(32, 32), life_chance: LifeChance::default() }
    }
}

} // verus!
