//! Remote desktop streaming: the wire protocol and the rules on both ends of
//! it, apart from capture devices, sockets and processes.

pub mod audio;
pub mod auth;
pub mod capture;
pub mod client;
pub mod config;
pub mod cursor;
pub mod diagnostics;
pub mod encoder;
pub mod hw_probe;
pub mod input;
pub mod protocol;
pub mod server;
pub mod text;
pub mod wire;
