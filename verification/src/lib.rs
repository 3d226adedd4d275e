//! A falling-sand cellular automaton: a grid of material cells that fall,
//! flow and exchange salinity, one tick at a time.

pub mod controls;
pub mod diffusion;
pub mod dot;
pub mod grid;
pub mod line;
pub mod movement;
pub mod pairs;
pub mod random;
pub mod sandbox;
pub mod settling;
pub mod tick;
