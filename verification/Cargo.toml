[package]
name = "nestor"
version = "0.1.0"
edition = "2021"
publish = false

[dependencies]
axum = "0.8"
clap = "4"
serde = { version = "1", features = ["derive"] }
serde_json = "1"
tokio = { version = "1", features = ["macros", "rt-multi-thread", "net"] }
