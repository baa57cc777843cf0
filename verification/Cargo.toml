[package]
name = "tracer"
version = "0.1.0"
edition = "2021"
publish = false

[dependencies]
libc = "*"
nix = { version = "*", features = ["ptrace", "process", "fs", "signal", "uio"] }
serde = { version = "*", features = ["derive"] }
serde_json = "*"
