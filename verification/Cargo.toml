[package]
name = "pcie"
version = "0.1.0"
edition = "2021"
publish = false

[dependencies]
zerocopy = "0.8"
tracing = "0.1"
