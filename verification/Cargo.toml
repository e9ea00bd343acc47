[package]
name = "block_executor"
version = "0.1.0"
edition = "2021"
publish = false

[dependencies]
bytes = "1"
num_cpus = "1"
once_cell = "1"
prometheus = { version = "0.13", default-features = false }
rayon = "1"
