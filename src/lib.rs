//! Verified core of a small path tracer: the image buffer and its plain-text
//! pixel-map encoding, channel quantisation, nearest-hit selection over ordered
//! ray parameters, and the depth-bounded control of the shading recursion.
//! The floating-point geometry lives with the program that drives the library.

pub mod hit;
pub mod image;
pub mod ppm;
pub mod shade;
pub mod tone;
