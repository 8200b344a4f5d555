//! Reliable file transfer over UDP: the protocol engine, its timing wheel,
//! path probing and the decisions of the clients built on top of them.

pub mod bytes;
pub mod duration;
pub mod ids;
pub mod laws;
pub mod net;
pub mod network_probe;
pub mod ordered_map;
pub mod overriding;
mod random;
pub mod reliable_core;
pub mod reliable_udp;
pub mod server_app;
pub mod sort;
pub mod text;
pub mod text_laws;
pub mod time_wheel;
pub mod transfer_client;
pub mod tui_app;
pub mod wire;
