[package]
name = "protocols"
version = "0.1.0"
edition = "2021"
publish = false

[dependencies]
rand = "0.8"
rand_chacha = "0.3"
bincode = "1"
serde = { version = "1", features = ["derive"] }
clap = "2"
crossbeam = "0.8"
rayon = "1"
num-traits = "0.2"
num_cpus = "1"
futures = "0.3"
async-std = "1"
