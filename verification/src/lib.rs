//! A minimal configuration bootstrap for a capture service.
//!
//! The library resolves the service configuration from the text of an
//! on-disk YAML document (or synthesizes and serializes a default when the
//! document is absent), derives the configuration paths from the user's
//! home directory, and exposes the resolved storage path to the serving
//! layer. All file-system and network work stays outside the library:
//! callers hand in plain strings and receive plain strings back.

pub mod config;
pub mod resolve;
pub mod yaml;

pub use config::Configuration;
pub use config::index;
pub use resolve::ConfigError;
pub use resolve::Resolution;
