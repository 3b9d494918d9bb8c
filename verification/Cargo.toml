[package]
name = "reliable_udp"
version = "0.1.0"
edition = "2021"
publish = false

[dependencies]
actix = "0.13"
actix-rt = "2"
bit_field = "0.10"
bytes = "1"
