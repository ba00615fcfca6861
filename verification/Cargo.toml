[package]
name = "w25q32jv"
version = "0.1.0"
edition = "2021"
publish = false

[dependencies]
embedded-hal = "1.0"
embedded-hal-async = "1.0"
embedded-storage = "0.3"
embedded-storage-async = "0.4"
