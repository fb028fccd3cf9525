[package]
name = "cgroup_metrics"
version = "0.1.0"
edition = "2021"
publish = false

[dependencies]
bytes = "1"
chrono = "0.4"
serde = { version = "1", features = ["derive"] }
