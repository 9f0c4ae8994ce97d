[package]
name = "larql"
version = "0.1.0"
edition = "2021"
publish = false

[dependencies]
tonic = { version = "0.12", default-features = false }
tokio = { version = "1", features = ["sync", "rt", "macros", "time"] }
serde = { version = "1", features = ["derive"] }
ndarray = "0.16"
