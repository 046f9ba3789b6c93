[package]
name = "nicaiemu_core"
version = "0.1.0"
edition = "2021"
publish = false

[dependencies]
armv4t_emu = "*"
encoding_rs = "*"
log = "*"
unifont = "*"
