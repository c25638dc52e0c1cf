[package]
name = "darpi_runtime"
version = "0.1.0"
edition = "2021"
publish = false

[dependencies]
hmac = "*"
sha2 = "*"
flate2 = "*"
log = "*"
env_logger = "*"
