//! The error taxonomy of configuration resolution. Every failure is reported
//! synchronously as one of these variants; no partial configuration is ever
//! returned.

use vstd::prelude::*;

verus! {

/// Why configuration resolution failed.
#[derive(Debug)]
pub enum ConfigError {
    /// The environment-selecting token is neither `local` nor `production`
    /// (up to ASCII letter case). Carries a human-readable message that
    /// quotes the offending token verbatim.
    InvalidEnvironment(String),
    /// A required file layer could not be located. Carries the name of the
    /// missing layer.
    SourceMissing(String),
    /// The merged document does not satisfy the settings schema: a required
    /// field is missing or fails type coercion. Carries the offending field
    /// path where determinable.
    Deserialize(String),
    /// A malformed environment-variable overlay, such as a variable name
    /// with an empty path segment. Carries the offending variable name.
    EnvOverlayParse(String),
}

} // verus!
