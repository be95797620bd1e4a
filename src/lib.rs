//! The verified core of a ray tracer's image side: fixed-point colors, the pixel canvas
//! and its PPM text, procedural surface patterns, dense grids for matrices, and the
//! bound on reflection depth. The floating-point geometry that drives them lives in
//! the program around this library.

pub mod canvas;
pub mod color;
pub mod grid;
pub mod patterns;
pub mod shading;

pub use canvas::Canvas;
pub use color::Color;
