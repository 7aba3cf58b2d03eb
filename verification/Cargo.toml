[package]
name = "abar"
version = "0.2.0"
edition = "2021"
publish = false

[dependencies]
chrono = "*"
chrono-tz = "*"
clap = { version = "4", features = ["derive"] }
serde = { version = "1", features = ["derive"] }
serde_json = "1"
toml = "*"
tokio = { version = "1", features = ["full"] }
tracing = "0.1"
thiserror = "*"
cairo-rs = { version = "*", features = ["png"] }
pango = "*"
pangocairo = "*"
resvg = "*"
rustix = { version = "*", features = ["event", "fs"] }
tempfile = "3"
wayland-client = "0.31"
wayland-protocols-wlr = { version = "0.3", features = ["client"] }

[dev-dependencies]
