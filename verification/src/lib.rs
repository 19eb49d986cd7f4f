//! Monte Carlo estimation of the density of states of a binary ensemble.
//!
//! Two sampling engines share a reversible single-site move abstraction:
//! a flat-histogram (Wang-Landau) sampler and a replica-exchange
//! (parallel tempering) sampler.  All probabilities and log densities are
//! held as fixed-point integers, so that the rules of the samplers can be
//! stated and proved exactly; the host converts them to floating point
//! for display only.

pub mod chapter;
pub mod code_editor;
pub mod coin;
pub mod errors;
pub mod estimator;
pub mod fixed;
pub mod histogram;
pub mod ring_buffer;
pub mod rng;
pub mod tempering;
pub mod wang_landau;
