//! Input sanitization and job scheduling for a concurrent media-download
//! manager.
//!
//! The crate validates every piece of untrusted input (URLs, filesystem
//! paths, filename templates, browser identifiers, concurrency limits)
//! before it may reach process-argument construction or disk I/O, and
//! models the lifecycle of concurrent download jobs under a configurable
//! concurrency bound.

pub mod errors;
pub mod logger;
pub mod host;
pub mod manager;
pub mod security;
pub mod settings;
pub mod text;
