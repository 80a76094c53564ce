[package]
name = "goose"
version = "0.1.0"
edition = "2021"
publish = false

[dependencies]
rust_decimal = "1"
chrono = { version = "0.4", default-features = false, features = ["std"] }
csv = "1"
uuid = { version = "1", features = ["v5"] }
clap = { version = "4", features = ["derive", "env"] }
serde_json = "1"
dotenvy = "0.15"
thiserror = "2"
diesel = { version = "2.2", features = ["sqlite"] }
rusqlite = "0.29"
