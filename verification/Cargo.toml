[package]
name = "constant_pool"
version = "0.1.0"
edition = "2021"
publish = false

[dependencies]
cesu8 = "1.1.0"
