//! The configuration of the server.

pub mod config;
pub mod laws;

pub use config::{AppConfig, ConfigError, Overrides, RelayConfigFile, ServerConfigFile, ServerSettings};
