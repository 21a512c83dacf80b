//! A constraint-propagation grid solver in the wave-function-collapse style.
//!
//! Each cell of a dense two-dimensional grid holds a feature vector: one slot
//! per possible tile, each slot 0 or 1. Observing a feature in one cell
//! narrows its neighbors through a directional compatibility rule, and a cell
//! that collapses to a single tile propagates the narrowing outward until the
//! grid stabilizes.

pub mod display;
pub mod engine;
pub mod features;
pub mod grid;
pub mod random;
pub mod rules;
pub mod system;
pub mod tile;
