[package]
name = "factorial"
version = "0.1.0"
edition = "2021"
publish = false

[dependencies]
num-bigint = "0.4"
num_cpus = "1"
