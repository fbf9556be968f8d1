//! A volume node for an audio processing graph.
//!
//! The node multiplies every sample of an interleaved audio buffer by a gain,
//! and ramps linearly between the gain of the previous buffer and a newly set
//! gain across the start of the next buffer, so that a gain change never
//! produces an audible step discontinuity.
//!
//! Gains are fixed-point integers counted in units of [`fixed::GAIN_ONE`];
//! during a ramp the running gain is carried as an exact rational, and a
//! sample is rounded (toward zero) only once, when it is scaled.

pub mod fixed;

pub mod laws;

pub mod node;

