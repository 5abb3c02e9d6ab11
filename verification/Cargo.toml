[package]
name = "cce_designer"
version = "0.1.0"
edition = "2021"
publish = false

[dependencies]
env_logger = "0.11"
glam = "*"
png = "0.18"
