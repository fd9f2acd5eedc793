[package]
name = "unciv"
version = "0.1.0"
edition = "2021"

[dependencies]
png = "*"
