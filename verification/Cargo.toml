[package]
name = "lfsr_index"
version = "0.1.0"
edition = "2021"
publish = false

[dependencies]
bytes = "1"
mimalloc = "0.1"
