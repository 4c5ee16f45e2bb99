[package]
name = "prototyper"
version = "0.1.0"
edition = "2021"
publish = false

[dependencies]
rustsbi = "0.4.0"
riscv = "*"
serde = { version = "1", default-features = false, features = ["derive"] }
serde-device-tree = "*"
