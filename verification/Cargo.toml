[package]
name = "ledger_engine"
version = "0.1.0"
edition = "2021"
publish = false

[dependencies]
rust_decimal = { version = "1", features = ["serde-with-arbitrary-precision"] }
hashbrown = "*"
clap = { version = "4", features = ["derive"] }
color-eyre = "*"
csv = "1"
serde = { version = "1", features = ["derive"] }
tokio = { version = "1", features = ["rt-multi-thread", "sync"] }
tokio-util = { version = "*", features = ["rt"] }
