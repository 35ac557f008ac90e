[package]
name = "hypervisor_core"
version = "0.1.0"
edition = "2021"
publish = false

[dependencies]
rand = "0.8"
anyhow = "1"
chrono = "0.4"
crossterm = "0.27"
k8s-openapi = { version = "0.22", features = ["v1_30"] }
kube = { version = "0.93", features = ["client", "runtime"] }
once_cell = "1"
ratatui = "0.26"
regex = "1"
serde = { version = "1", features = ["derive"] }
serde_json = "1"
sysinfo = "0.30"
tokio = { version = "1", features = ["rt-multi-thread", "macros", "time"] }
toml = "0.8"
tracing = "0.1"
tracing-subscriber = { version = "0.3", features = ["env-filter"] }
