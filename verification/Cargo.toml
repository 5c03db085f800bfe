[package]
name = "serial_tool"
version = "1.0.0"
edition = "2021"
publish = false

[dependencies]
encoding_rs = "0.8"
serialport = { version = "4", default-features = false }
chrono = { version = "0.4", default-features = false, features = ["clock"] }
serde = { version = "1", features = ["derive"] }
toml = "*"
directories = "*"
