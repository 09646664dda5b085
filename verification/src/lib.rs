//! A tiled paint canvas: a CPU-side RGBA buffer split into display tiles,
//! with dirty-tile tracking and the pointer-input state that drives strokes.

pub mod tool;
pub mod image_store;
pub mod geometry;
pub mod canvas;
pub mod model;
pub mod input;
pub mod display;
