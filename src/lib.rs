//! Texture synthesis by a Markov random field over small square patterns.
//!
//! A sample bitmap is scanned for its n-by-n neighbourhoods (with all eight
//! rotations and reflections); their frequencies form a weight table, which
//! then drives single-cell flips on an output field.
use vstd::prelude::*;

pub mod pattern;
pub mod weights;
pub mod field;
pub mod sampler;
pub mod chain;

verus! {
} // verus!
