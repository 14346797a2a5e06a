//! Simulation core of a cellular automaton on a bounded hexagonal lattice:
//! axial coordinates, the hexagonal region of a given radius, and the
//! double-buffered generation update.

pub mod game;
pub mod hex;
pub mod random;
pub mod region;
pub mod rule;

pub use crate::game::HexGOL;
pub use crate::hex::{HexAxis, HexInt};
