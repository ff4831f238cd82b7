[package]
name = "biguint_wire"
version = "0.1.0"
edition = "2021"
publish = false

[dependencies]
num-integer = "0.1"
serde = "1"
