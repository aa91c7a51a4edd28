[package]
name = "led_sim"
version = "0.1.0"
edition = "2021"
publish = false

[dependencies]
rand = "*"
axum = "*"
tokio = { version = "*", features = ["rt-multi-thread", "net", "time", "macros"] }
serde = { version = "*", features = ["derive"] }
serde_json = "*"
parking_lot = "*"
tracing = "*"
tracing-subscriber = { version = "*", features = ["env-filter", "fmt"] }
