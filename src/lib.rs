//! A Game of Life with afterglow: the grid and its generation step, the world
//! that paces generations in time, and the colours that render it.

pub mod color;
pub mod dynamics;
pub mod font;
pub mod grid;
pub mod render;
pub mod world;

pub use color::{MixedRgba, Rgba};
pub use grid::{Cell, Cells};
pub use render::draw;
pub use world::{Size, World, WorldState};
