[package]
name = "snarkvm_program"
version = "0.1.0"
edition = "2021"
publish = false

[dependencies]
indexmap = "1"
anyhow = "1"
