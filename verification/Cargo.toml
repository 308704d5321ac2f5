[package]
name = "proto"
version = "0.1.0"
edition = "2021"
publish = false

[dependencies]
serde_json = "1"
uuid = "1"
log = "0.4"
simple_logger = "*"
