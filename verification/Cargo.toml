[package]
name = "drivesrv"
version = "0.1.0"
edition = "2021"
publish = false

[dependencies]
anyhow = "1"
argh = "0.1"
async-trait = "0.1"
crossterm = "0.27"
flate2 = "1"
futures = "0.3"
glam = "0.25"
lazy_static = "1"
log = "0.4"
mlua = { version = "0.9", features = ["lua54", "vendored"] }
pretty_env_logger = "0.5"
ratatui = "0.26"
reqwest = { version = "0.11", default-features = false, features = ["json", "rustls-tls"] }
serde = { version = "1", features = ["derive"] }
serde-aux = "4"
serde_json = "1"
tokio = { version = "1", features = ["full"] }
toml = "0.8"
uuid = "1"
