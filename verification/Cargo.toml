[package]
name = "papier"
version = "0.1.0"
edition = "2021"
publish = false

[dependencies]
anyhow = "1"
bytes = "1"
env_logger = "0.11"
image = { version = "=0.25.10", default-features = false, features = ["jpeg"] }
log = "0.4"
reqwest = { version = "0.12", default-features = false, features = ["rustls-tls"] }
rustix = { version = "1", features = ["fs", "mm"] }
tokio = { version = "1", features = ["macros", "net", "rt", "sync", "time"] }
wayland-client = "0.31"
wayland-protocols = { version = "0.32", features = ["client", "staging", "unstable"] }
wayland-protocols-wlr = { version = "0.3", features = ["client"] }
