//! Board layout, piece placement, position animation and square selection
//! for a 3D chessboard, in whole units of a fixed-point world grid.

pub mod animation;
pub mod board;
pub mod geometry;
pub mod pieces;
