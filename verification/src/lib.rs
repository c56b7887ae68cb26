//! Hydraulic erosion simulation over a square heightmap.
//!
//! A seeded fractal-noise pass generates an island-shaped terrain; rain and
//! mountain springs then spawn water droplets that flow downhill, eroding
//! high ground and depositing sediment in low ground, tick by tick.
//!
//! All physical quantities (heights, positions, water, sediment, velocity)
//! are fixed-point numbers: an `i64` counts units of `1 / SCALE`.

pub mod droplet;
pub mod erosion;
pub mod fixed;
pub mod grid;
pub mod outside;
pub mod source;
