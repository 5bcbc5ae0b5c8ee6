[package]
name = "transaction_solver"
version = "0.1.0"
edition = "2021"
publish = false

[dependencies]
clap = { version = "=4.5.61", features = ["derive"] }
csv = "=1.4.0"
rust_decimal = "=1.42.1"
serde = { version = "=1.0.229", features = ["derive"] }
tokio = { version = "=1.53.1", default-features = false, features = ["rt-multi-thread", "sync", "macros"] }
