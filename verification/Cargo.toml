[package]
name = "cosmic-workspaces"
version = "0.1.0"
edition = "2021"
publish = false

[dependencies]
rustix = { version = "=1.1.6", features = ["fs", "shm"] }
bytemuck = "=1.25.2"
ash = "=0.38.0"
gbm = "=0.18.0"
calloop = "=0.14.5"
calloop-wayland-source = "=0.4.1"
futures-channel = "=0.3.34"
log = "=0.4.35"
env_logger = "=0.11.11"
clap = { version = "=4.6.7", features = ["derive"] }
zbus = "=6.2.1"
tokio = { version = "=1.54.1", features = ["rt", "sync"] }
tokio-stream = { version = "=0.1.19", features = ["sync"] }
itertools = "=0.15.0"
freedesktop-icons = "=0.4.0"
memmap2 = "=0.9.12"
anyhow = "=1.0.104"
aliasable = "=0.1.3"
delegate = "=0.13.5"
wayland-protocols = { version = "=0.32.13", features = ["client", "staging"] }
