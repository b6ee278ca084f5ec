[package]
name = "libcrux-ml-kem"
version = "0.1.0"
edition = "2021"
publish = false

[dependencies]
libcrux-intrinsics = "*"
