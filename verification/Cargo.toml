[package]
name = "wam_relay"
version = "0.1.0"
edition = "2021"
publish = false

[dependencies]
chrono = { version = "*", default-features = false, features = ["clock"] }
serde = { version = "*", features = ["derive"] }
serde_json = "*"
tokio = { version = "*", features = ["macros", "rt-multi-thread", "sync", "time"] }
axum = { version = "*", features = ["ws"] }
reqwest = { version = "*", default-features = false, features = ["json"] }
kafka = { version = "*", default-features = false }
futures = "*"
log = "*"
env_logger = "*"
dotenvy = "*"
