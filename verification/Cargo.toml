[package]
name = "dex_orderbook"
version = "0.1.0"
edition = "2021"
publish = false

[dependencies]
rust_decimal = "1"
priority-queue = "1"
uuid = { version = "1", features = ["v4", "serde"] }
chrono = { version = "0.4", features = ["serde"] }
tokio = { version = "1", features = ["full"] }
parking_lot = "0.12"
serde = { version = "1", features = ["derive"] }
thiserror = "1"
