//! The bounded universe: a grid of fixed size whose edges meet, so that a
//! cell on one edge touches the cells on the opposite edge.

pub mod universe;
pub mod utils;
