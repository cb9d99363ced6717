[package]
name = "onelauncher_logs"
version = "0.1.0"
edition = "2021"
publish = false

[dependencies]
whoami = "1"
uuid = "1"
flate2 = "1"
serde = { version = "1", features = ["derive"] }
anyhow = "1"
tokio = { version = "1", features = ["fs", "io-util", "rt"] }
