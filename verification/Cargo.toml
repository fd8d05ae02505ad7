[package]
name = "cserun"
version = "0.1.0"
edition = "2021"
publish = false

[dependencies]
chrono = "*"
ignore = "*"
ssh2 = "*"
