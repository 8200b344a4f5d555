//! Hierarchical timing wheel: timers are kept in levels of slots, and a heap
//! ordered by deadline gives the earliest one.

pub mod config;
mod deadline;
pub mod error;
pub mod firing;
pub mod id;
pub mod laws;
mod level;
pub mod moment;
pub mod order;
pub mod shape;
pub mod table;
pub mod wheel;

pub use config::{WheelConfig, WheelConfigBuilder};
pub use error::{ConfigError, TimerError};
pub use id::TimerId;
pub use table::MAX_NODES;
pub use wheel::{AdvanceReport, Expired, Timer, Wheel};
