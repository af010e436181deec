[package]
name = "kitties"
version = "0.1.0"
edition = "2021"
publish = false

[dependencies]
frame-support = "*"
frame-system = "*"
sp-core = "*"
sp-io = "*"
sp-runtime = "*"
sp-std = "*"
scale-info = { version = "*", features = ["derive"] }
parity-scale-codec = { version = "*", features = ["derive"] }
log = "*"
serde = { version = "*", features = ["derive"] }
