[package]
name = "one_max_ga"
version = "0.1.0"
edition = "2021"
publish = false

[dependencies]
rand = "0.8"
num_cpus = "1"
tqdm = "*"
