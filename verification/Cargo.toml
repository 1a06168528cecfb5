[package]
name = "portmap"
version = "0.1.0"
edition = "2021"
publish = false

[dependencies]
igd = "0.12"
clap = "2"
