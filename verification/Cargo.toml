[package]
name = "mycelium"
version = "0.1.0"
edition = "2021"
publish = false

[dependencies]
thiserror = "1"
embedded-graphics-core = "0.4"
