[package]
name = "xpi_vlu4"
version = "0.1.0"
edition = "2021"
publish = false

[dependencies]
bbqueue = "=0.5.1"
