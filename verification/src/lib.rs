//! Verified building blocks of a Mandelbrot-set renderer, and Euclid's
//! algorithm beside them.

pub mod encoder;
pub mod escape;
pub mod euclid;
pub mod pair;
pub mod render;
