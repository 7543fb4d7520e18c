//! Conway's Game of Life on a rectangular grid with an optional toroidal
//! topology. Every mutation reports what has to be repainted, so that a
//! renderer can keep a drawing surface in step with the grid.
pub mod cell;
pub mod life;
pub mod surface;
pub mod world;

pub use cell::Cell;
pub use life::CellChange;
pub use surface::{Fill, Frame};
pub use world::{World, WorldError};
