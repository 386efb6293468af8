[package]
name = "rustfiber"
version = "0.2.0"
edition = "2021"
publish = false

[dependencies]
sysinfo = "=0.37.2"
core_affinity = "=0.8.3"
crossbeam = "=0.8.5"
corosensei = "=0.3.4"
lazy_static = "=1.5.1"
serde = { version = "=1.0.229", features = ["derive"] }
serde_json = "=1.0.154"
thiserror = "=2.0.21"
