[package]
name = "pin_logger"
version = "0.1.0"
edition = "2021"
publish = false

[dependencies]
critical-section = "1"
embedded-hal = "1"
log = "0.4"
