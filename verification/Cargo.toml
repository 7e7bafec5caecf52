[package]
name = "cbar"
version = "0.1.0"
edition = "2021"
publish = false

[dependencies]
sha2 = "=0.10.9"
serde = { version = "=1.0.229", features = ["derive"] }
serde_json = "=1.0.154"
libc = "=0.2.191"
rustix = { version = "=1.1.6", features = ["event", "pipe", "process"] }
tokio = { version = "=1.54.1", features = ["full"] }
tracing = "=0.1.44"
thiserror = "=2.0.21"
futures-channel = "=0.3.34"
walkdir = "=2.5.0"
dirs = "=6.0.0"
notify = "=8.2.1"
color-eyre = "=0.6.5"
gtk4 = "=0.10.3"
gtk4-layer-shell = "=0.6.3"
