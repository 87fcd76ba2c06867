[package]
name = "papete"
version = "0.1.0"
edition = "2021"
publish = false

[dependencies]
queue = "=0.3.1"
regex = "=1.13.1"
serialport = { version = "=4.10.1", default-features = false }
