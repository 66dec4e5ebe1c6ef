[package]
name = "k_exercise"
version = "0.1.0"
edition = "2021"
publish = false

[dependencies]
csv = "1"
memmap2 = "0.9"
rust_decimal = "1"
serde = "1"
tempfile = "3"
