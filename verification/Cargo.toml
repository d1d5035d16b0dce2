[package]
name = "consult_parcels"
version = "0.1.0"
edition = "2021"
publish = false

[dependencies]
tokio = { version = "*", features = ["rt-multi-thread", "sync", "time", "macros"] }
futures = "*"
serde = { version = "*", features = ["derive"] }
serde_json = "*"
