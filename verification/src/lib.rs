//! Resampling algorithms for particle filters.
//!
//! A population of particles is described by a [`weights::Weights`] value:
//! a vector of exact integer weights together with the total they sum to,
//! so that particle `i` carries probability `w[i] / total`.  A resampler
//! consumes uniform random draws in `[0, 1)` — exact fractions handed in
//! through a [`draws::RandomSource`] — and produces a new population of
//! particle indices whose frequencies approximate the weight distribution.
//!
//! Four algorithms implement the [`resampler::Resampler`] capability:
//! multinomial, stratified, systematic and residual resampling.

pub mod cdf;
pub mod draws;
pub mod multinomial;
pub mod resampler;
pub mod residual;
pub mod stratified;
pub mod systematic;
pub mod weights;
