[package]
name = "uuid_v7"
version = "0.1.0"
edition = "2021"
publish = false

[dependencies]
chrono = "0.4"
getrandom = "*"

[dev-dependencies]
uuid = { version = "1", features = ["v7"] }
