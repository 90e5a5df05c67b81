[package]
name = "protocol"
version = "0.1.0"
edition = "2021"
publish = false

[dependencies]
bytes = "1"
byteorder = "1"
indexmap = "2"
uuid = "1"
