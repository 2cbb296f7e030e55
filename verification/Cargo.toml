[package]
name = "mini-hsm"
version = "0.1.0"
edition = "2021"
publish = false

[dependencies]
sha2 = { version = "=0.10.9", default-features = false }
embassy-executor = "=0.9.1"
embassy-time = "=0.5.1"
embassy-sync = "=0.8.0"
embassy-futures = "=0.1.2"
embassy-usb = "=0.6.0"
static_cell = "=2.1.1"
