//! A sliding-tile puzzle on an N×N board: the board with its moves and
//! shuffles, the slide animation that follows a move, and the colour band
//! of a tile.

pub mod anim;
pub mod board;
pub mod color;
pub mod direction;
pub mod laws;
pub mod puzzle;
pub mod random;
