[package]
name = "vlan_gaming"
version = "0.1.0"
edition = "2021"
publish = false

[dependencies]
tokio = { version = "1", features = ["rt-multi-thread", "net", "sync", "macros", "time"] }
wintun = "0.5"

[dev-dependencies]
bincode = "1"
serde = { version = "1", features = ["derive"] }
