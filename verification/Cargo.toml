[package]
name = "remote_desktop"
version = "0.1.0"
edition = "2021"
publish = false

[dependencies]
memchr = "=2.8.3"
sha2 = "=0.10.9"
hex = "=0.4.3"
rand = "=0.8.8"
axum = { version = "=0.7.9", features = ["ws"] }
tokio = { version = "=1.54.1", features = ["full"] }
futures-util = "=0.3.34"
tower-http = { version = "=0.6.11", features = ["fs"] }
clap = { version = "=4.6.7", features = ["derive"] }
env_logger = "=0.11.11"
log = "=0.4.35"
serde = { version = "=1.0.229", features = ["derive"] }
toml = "=0.8.23"
wasm-bindgen = "=0.2.130"
scrap = "=0.5.0"
wasapi = "=0.26.0"
winapi = { version = "=0.3.9", features = ["winuser", "minwindef", "windef"] }

[dev-dependencies]
serde_json = "=1.0.154"
