[package]
name = "ring_deque"
version = "0.1.0"
edition = "2021"
publish = false

[dependencies]
nix = { version = "0.29", features = ["feature", "fs", "mman"] }

[dev-dependencies]
rand = "0.8"
