//! Conway's Game of Life on a wrap-around board, with the pattern catalog,
//! the frame renderer and the key handling of a terminal front end.

pub mod app;
pub mod grid;
pub mod input;
pub mod kinds;
pub mod patterns;
pub mod random;
pub mod render;
pub mod terminal;
