//! Layout engine for a tiled video wall: turns rows of physical screens into
//! a wall bounding box, per-screen placements and a tile numbering.
pub mod cli;
pub mod wall;
pub mod layout;
pub mod laws;
