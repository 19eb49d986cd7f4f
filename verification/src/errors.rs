//! Configuration errors.  They are rejected synchronously at construction
//! or mutation time, and the prior valid state stays in place.

use vstd::prelude::*;

verus! {

/// Why a configuration was rejected.
#[derive(Debug, Clone, Copy, PartialEq, Eq, Structural)]
pub enum ConfigError {
    /// A configuration of zero cells was asked for.
    ZeroLength,
    /// A modification-factor threshold that is not positive was asked for.
    NonPositiveThreshold,
    /// A flatness check interval of zero steps was asked for.
    ZeroCheckInterval,
    /// A flatness tolerance outside `0 ..= 1` was asked for.
    InvalidFlatness,
}

impl ConfigError {
    /// A short description of the error.
    pub fn message(&self) -> &'static str {
        match self {
            ConfigError::ZeroLength => "the configuration needs at least one cell",
            ConfigError::NonPositiveThreshold => "the threshold must be positive",
            ConfigError::ZeroCheckInterval => "the check interval must be positive",
            ConfigError::InvalidFlatness => "the flatness tolerance must be a fraction",
        }
    }
}

} // verus!
