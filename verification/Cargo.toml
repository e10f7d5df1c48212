[package]
name = "watchdog"
version = "0.2.0"
edition = "2021"
publish = false

[dependencies]
chrono = "0.4"
serde = { version = "1", features = ["derive"] }
serde_json = "1"
serde_yaml = "0.9"
reqwest = { version = "0.11", default-features = false, features = ["json"] }
tokio = { version = "1", features = ["full"] }
tokio-util = "0.7"
axum = "0.6"
tower = { version = "0.4", features = ["timeout", "util"] }
clap = "4"
ansi_term = "0.12"
