[package]
name = "bootloader"
version = "0.1.0"
edition = "2021"
publish = false

[dependencies]
cortex-m = "0.6"
cortex-m-rt = "0.6"
lpc11uxx = { version = "0.3.0", features = ["rt"] }
