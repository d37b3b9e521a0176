[package]
name = "iocraft"
version = "0.1.0"
edition = "2021"
publish = false

[dependencies]
unicode-width = "=0.2.3"
unicode-linebreak = "=0.1.5"
regex = "=1.13.1"
crossterm = "=0.29.0"

[dev-dependencies]
avt = "*"
