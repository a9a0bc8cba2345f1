[package]
name = "sos_kernel"
version = "0.1.0"
edition = "2021"
publish = false

[dependencies]
arrayvec = "0.7"
spin = "0.9"
