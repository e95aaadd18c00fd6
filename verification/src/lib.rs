//! Layered runtime-configuration resolution.
//!
//! A configuration is assembled from three ordered sources — a base document,
//! an environment-specific document and a set of process environment
//! variables — merged key-wise (later sources win) and then read into a
//! strongly typed settings value, or rejected with a descriptive error.

pub mod document;
pub mod environment;
pub mod error;
pub mod loader;
pub mod overlay;
pub mod secret;
pub mod settings;
pub mod text;
