[package]
name = "pollbook"
version = "0.1.0"
edition = "2021"
publish = false

[dependencies]
chrono = "*"
rusqlite = "*"
uuid = { version = "*", features = ["v4"] }
