[package]
name = "bf_lib"
version = "0.3.0"
edition = "2021"
publish = false

[dependencies]
rand = "0.7"
subprocess = "0.2"
