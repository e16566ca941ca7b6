[package]
name = "file_test_runner"
version = "0.1.0"
edition = "2021"
publish = false

[dependencies]
anyhow = "*"
crossbeam-channel = "*"
deno_terminal = "*"
parking_lot = "*"
rayon = "*"
regex = "*"
thiserror = "*"
