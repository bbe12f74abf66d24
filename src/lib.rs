//! Primitives for a software rasterizer: exact decimal numbers, a tuple
//! algebra of points and vectors, colors with 8-bit quantization, and a pixel
//! canvas that encodes itself as plain-text PPM.

pub mod decimal;
pub mod text;
pub mod tuple;
pub mod color;
pub mod canvas;
pub mod projectile;
