[package]
name = "modbus"
version = "0.1.0"
edition = "2021"
publish = false

[dependencies]
bytes = "*"
clap = { version = "*", features = ["derive"] }
comfy-table = "*"
csv = "*"
rustyline = { version = "*", features = ["derive"] }
shellwords = "*"
tokio = { version = "*", features = ["full"] }
