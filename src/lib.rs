//! A falling-sand cellular automaton: particles of a few materials fall,
//! pile up and flow on a two-dimensional grid, with moves staged during a
//! sweep and committed together with a fair random choice between moves
//! that contend for the same slot.

pub mod cell;
pub mod commit;
pub mod species;
pub mod universe;
pub mod utils;
