[package]
name = "gzp"
version = "0.1.0"
edition = "2021"
publish = false

[dependencies]
flate2 = { version = "=1.1.10", default-features = false, features = ["zlib-rs"] }
snap = "=1.1.2"
flume = "=0.12.0"
num_cpus = "=1.17.0"
core_affinity = "=0.8.3"
