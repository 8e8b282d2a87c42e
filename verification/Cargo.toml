[package]
name = "flight_services"
version = "0.1.0"
edition = "2021"
publish = false

[dependencies]
blake2-rfc = "0.2.18"
fs_extra = "1"
serde = { version = "1", features = ["derive"] }
toml = "*"
uuid = { version = "1", features = ["v4"] }
