//! Deterministic multi-octave Perlin noise rendered to an 8-bit grayscale raster.
//!
//! The pipeline works in fixed point: fractions are integers scaled by
//! [`kernel::ONE`], and influences and noise values by `ONE * ONE`. The caller
//! supplies one gradient grid per octave, coarsest first, drawn from a seeded source;
//! [`field::render`] samples, weights, sums, normalizes and quantizes them.

pub mod config;
pub mod field;
pub mod grid;
pub mod intdiv;
pub mod kernel;
pub mod lattice;

