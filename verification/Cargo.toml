[package]
name = "taskpool"
version = "0.1.0"
edition = "2021"
publish = false

[dependencies]
num_cpus = "=1.17.0"
rand = "=0.8.8"
