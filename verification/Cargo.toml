[package]
name = "pipewire_volume_mixer_daemon"
version = "0.1.0"
edition = "2021"
publish = false

[dependencies]
anyhow = "*"
clap = { version = "*", features = ["derive"] }
dashmap = "*"
filetime = "*"
memmap2 = "*"
nix = { version = "*", features = ["user"] }
pipewire = "*"
serde = { version = "*", features = ["derive"] }
tokio = { version = "*", features = ["full"] }
toml = "*"
tracing = "*"
tracing-subscriber = { version = "*", features = ["env-filter"] }
zbus = "*"
