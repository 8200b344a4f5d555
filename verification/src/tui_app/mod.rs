//! The configuration and the decisions of the client's programs.

pub mod cli;
pub mod config;
pub mod laws;
pub mod ui;

pub use cli::{Command, OverwriteArg, ReceiveArgs, ResumeCommand, SendArgs};
pub use config::{
    AppConfig, ClientConfigFile, ClientSettings, ConfigError, Environment, NetworkConfigFile,
    Overrides, ServerConfigFile, StorageConfigFile, TransferConfigFile, UiConfigFile,
};
pub use ui::{HomeAction, Key, ResumeAction, ResumeScreen, TransferView};
