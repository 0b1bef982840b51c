[package]
name = "budget_lib"
version = "0.1.0"
edition = "2021"
publish = false

[dependencies]
chrono = "0.4"
uuid = { version = "1", features = ["v4"] }
decimal = "2"
clap = "2.33"
dirs = "*"
fern = "0.6"
log = "0.4"
serde = { version = "1", features = ["derive"] }
serde_yaml = "0.8"
