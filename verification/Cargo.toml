[package]
name = "machine-info"
version = "1.0.0"
edition = "2021"
publish = false

[dependencies]
anyhow = "1"
chrono = "0.4"
fern = "0.6"
log = "0.4"
nvml-wrapper = "0.8"
serde = { version = "1", features = ["derive"] }
sysinfo = "0.28"
v4l = "0.13"
