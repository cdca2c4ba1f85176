//! A small software renderer: a packed-colour pixel buffer with its
//! rasterising primitives, the cube mesh's face table, and the integer
//! decisions of the frame pipeline.

pub mod display;
pub mod mesh;
pub mod triangle;
pub mod pipeline;
