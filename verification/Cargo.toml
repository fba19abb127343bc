[package]
name = "metal_mayhem"
version = "0.1.0"
edition = "2021"
publish = false

[dependencies]
serde = { version = "1", features = ["derive"] }
serde_json = "1"
tokio = { version = "1", features = ["full"] }
tokio-websockets = { version = "*", features = ["server", "sha1_smol"] }
futures-util = { version = "0.3", features = ["sink"] }
configparser = "3"
once_cell = "1"
