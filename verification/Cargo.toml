[package]
name = "udp_transfer"
version = "0.1.0"
edition = "2021"
publish = false

[dependencies]
slotmap = "1"
hmac = "0.12"
sha2 = "0.10"
subtle = "2"
blake3 = { version = "1", features = ["pure"] }
getrandom = "0.3"
libc = "0.2"
tokio = { version = "1", features = ["full"] }
clap = { version = "4", features = ["derive"] }
serde = { version = "1", features = ["derive"] }
toml = "0.8"
tracing = "0.1"
tracing-subscriber = { version = "0.3", features = ["env-filter"] }
crossterm = "0.28"
ratatui = "0.29"
