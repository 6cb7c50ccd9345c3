[package]
name = "rig_resources"
version = "0.1.0"
edition = "2021"
publish = false

[dependencies]
async-trait = "*"
parking_lot = "*"
petgraph = "*"
rig-compose = "*"
serde = { version = "1", features = ["derive"] }
serde_json = "1"
thiserror = "*"
tracing = "*"
