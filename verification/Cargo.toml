[package]
name = "singer_protocol"
version = "0.1.0"
edition = "2021"
publish = false
