[package]
name = "atmega_uploader"
version = "0.1.0"
edition = "2021"
publish = false

[dependencies]
clap = "4"
serialport = { version = "4", default-features = false }
