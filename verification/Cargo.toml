[package]
name = "os3"
version = "0.1.0"
edition = "2021"
publish = false

[dependencies]
lazy_static = { version = "1.4", features = ["spin_no_std"] }
riscv = "*"
spin = "0.9"
