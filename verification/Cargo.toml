[package]
name = "trading_service"
version = "0.1.0"
edition = "2021"
publish = false

[dependencies]
rustc_apfloat = "*"
actix-web = "4"
serde = { version = "1", features = ["derive"] }
tokio = { version = "1", features = ["sync", "rt-multi-thread", "macros"] }
