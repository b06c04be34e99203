[package]
name = "foundry_db"
version = "0.1.0"
edition = "2021"
publish = false

[dependencies]
base64 = "=0.22.1"
url = "=2.5.8"
uuid = "=1.29.0"
serde = { version = "=1.0.229", features = ["derive"] }
serde_json = "=1.0.154"
chrono = { version = "0.4", default-features = false, features = ["clock", "std"] }
tokio = { version = "1", features = ["rt", "time", "macros", "sync"] }
clap = { version = "4", default-features = false, features = ["std"] }
