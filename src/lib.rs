pub mod geometry;
pub mod pieces;
pub mod board;
