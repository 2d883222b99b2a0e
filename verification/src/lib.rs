//! A generative 2D geometry engine: a deterministic scalar flow field, a
//! path tracer that follows it, a rejection-sampling point and circle
//! placer, and a randomized grid of linked cells partitioned into connected
//! components.
//!
//! Plane coordinates are fixed-point integers (see [`geometry::FP`]), and
//! angles are fixed-point fractions of a full turn (see [`trig::TURN`]), so
//! that every computation is exact integer arithmetic.

pub mod arrows;
pub mod chords;
pub mod circles;
pub mod cluster;
pub mod color;
pub mod config;
pub mod fixed;
pub mod flow;
pub mod geometry;
pub mod grid;
pub mod tracer;
pub mod paths;
pub mod rng;
pub mod sampler;
pub mod squares;
pub mod trig;
