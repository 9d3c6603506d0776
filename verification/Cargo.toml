[package]
name = "wayland_core"
version = "0.1.0"
edition = "2021"
publish = false

[dependencies]
quick-xml = "=0.42.0"
nix = { version = "=0.31.3", features = ["socket", "uio", "poll"] }
