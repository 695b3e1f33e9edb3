//! Move selection for a two-player territory-claiming game: board analytics,
//! a placement legality oracle, a heuristic scorer and a tiered selector.
use vstd::prelude::*;

pub mod grid;
pub mod board;
pub mod legality;
pub mod scoring;
pub mod candidates;
pub mod strategy;
pub mod game;
pub mod symmetry;

verus! {

} // verus!
