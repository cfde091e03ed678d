[package]
name = "sequent"
version = "1.0.0"
edition = "2021"
publish = false

[dependencies]
bytes = "1"
clap = { version = "4", features = ["derive"] }
log = "0.4"
signal-hook = "0.3"
simplelog = "0.12"
sqlite = "*"
zmq = "0.10"
