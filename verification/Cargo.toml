[package]
name = "vorsana"
version = "0.1.0"
edition = "2021"
publish = false

[dependencies]
ndarray = "=0.16.1"
rubato = "=0.16.2"
rustfft = "=6.4.1"
num-complex = "=0.4.6"
ort = { version = "=2.0.0-rc.15", default-features = false, features = ["std", "load-dynamic", "api-31"] }
axum = { version = "=0.8.9", features = ["ws"] }
tokio = { version = "=1.54.1", features = ["full"] }
tower-http = { version = "=0.6.11", features = ["cors"] }
serde = { version = "=1.0.229", features = ["derive"] }
log = "=0.4.35"
env_logger = "=0.11.11"
