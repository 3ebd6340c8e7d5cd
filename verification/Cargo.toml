[package]
name = "randomx"
version = "0.1.0"
edition = "2021"
publish = false

[dependencies]
num_cpus = "*"
memmap2 = "*"
parking_lot = "*"
thiserror = "*"
