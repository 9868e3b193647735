//! A procedural celestial-scene renderer, verified end to end.
//!
//! Given pixel coordinates, image dimensions and a time scalar, the library
//! produces one 8-bit RGB pixel of a small synthetic scene (a star, a rocky
//! planet, an orbiting moon, a gas giant) by analytic ray-sphere
//! intersection and noise-driven shading.  All arithmetic is Q16.16
//! fixed point, so every stage is an exact integer function with a
//! matching specification.

pub mod fixed;
pub mod noise;
pub mod tone;
pub mod trig;
pub mod vec3;
pub mod intersect;
pub mod shade;
pub mod scene;
pub mod render;
