[package]
name = "sha2_compress"
version = "0.1.0"
edition = "2021"
publish = false

[dependencies]
cpufeatures = "0.2"
