[package]
name = "binned_statistic"
version = "0.1.0"
edition = "2021"
publish = false

[dependencies]
ndarray = "0.15"
num-traits = "0.2"
