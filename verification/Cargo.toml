[package]
name = "mac-dock"
version = "0.1.0"
edition = "2021"
publish = false

[dependencies]
shell-words = "=1.1.1"
libc = "=0.2.191"
serde_json = "=1.0.154"
serde = { version = "=1.0.229", features = ["derive"] }
thiserror = "=2.0.21"
log = "=0.4.35"
env_logger = "=0.11.11"
nix = { version = "=0.31.3", features = ["signal"] }
notify = "=8.2.1"
clap = { version = "=4.6.7", features = ["derive"] }
gtk4 = "=0.11.5"
gtk4-layer-shell = "=0.8.1"
md5 = "0.7"
