[package]
name = "hunt_engine"
version = "0.1.0"
edition = "2021"
publish = false

[dependencies]
uuid = "*"
axum = "*"
tokio = { version = "*", features = ["rt-multi-thread", "macros", "net"] }
serde = { version = "*", features = ["derive"] }
