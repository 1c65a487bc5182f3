[package]
name = "yatmux"
version = "0.1.0"
edition = "2021"
publish = false

[dependencies]
nucleo-matcher = "0.3"
serde = { version = "1", features = ["derive"] }
serde_json = "1"
winit = { version = "0.30", default-features = false, features = ["x11", "rwh_06"] }
softbuffer = { version = "0.4", default-features = false, features = ["x11"] }
dirs = "*"
open = "5"
toml = "*"
wait-timeout = "0.2"
anyhow = "1"
