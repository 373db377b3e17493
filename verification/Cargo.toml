[package]
name = "crosslink"
version = "0.1.0"
edition = "2021"
publish = false

[dependencies]
critical-section = { version = "=1.2.0", features = ["std"] }
embedded-hal = { version = "=0.2.7", features = ["unproven"] }
embedded-io = "=0.4.0"
fugit = "=0.3.9"
nb = "=1.1.0"
