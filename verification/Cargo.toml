[package]
name = "movement"
version = "0.1.0"
edition = "2021"
publish = false

[dependencies]
serialport = { version = "*", default-features = false }
phf = { version = "*", features = ["macros"] }
ron = "*"
serde = { version = "*", features = ["derive"] }
num-traits = "*"
thiserror = "*"
