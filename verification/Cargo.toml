[package]
name = "expense_ledger"
version = "0.1.0"
edition = "2021"
publish = false

[dependencies]
chrono = { version = "0.4", features = ["serde"] }
clap = { version = "4", features = ["derive"] }
csv = "1"
num-traits = "0.2"
serde = { version = "1", features = ["derive"] }
