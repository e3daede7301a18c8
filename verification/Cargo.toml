[package]
name = "clawpier"
version = "0.1.0"
edition = "2021"
publish = false

[dependencies]
bollard = "0.18"
chrono = "0.4"
dirs = "5"
futures-util = "0.3"
reqwest = { version = "0.12", default-features = false, features = ["json", "rustls-tls"] }
serde = { version = "1", features = ["derive"] }
serde_json = "1"
serde_yaml = "0.9"
sysinfo = { version = "0.32", default-features = false, features = ["system"] }
tokio = { version = "1", features = ["fs", "io-util", "macros", "rt", "sync", "time"] }
uuid = { version = "1", features = ["v4"] }
