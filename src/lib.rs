//! A fixed-point kernel for a trail-following (slime-mould style) agent
//! simulation on a toroidal grid of chunks.
//!
//! Lengths, velocities, radii and weights are held in milli-units: the value
//! `1000` stands for one unit of length or one unit of weight.

pub mod decay;
pub mod geometry;
pub mod grid;
pub mod world;
