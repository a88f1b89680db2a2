[package]
name = "chess_engine"
version = "0.1.0"
edition = "2021"
publish = false

[dependencies]
colored = "2"
num_cpus = "1"
rand = "0.8"
rand_xorshift = "0.3"
