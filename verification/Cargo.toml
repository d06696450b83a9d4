[package]
name = "merge_futures"
version = "0.1.0"
edition = "2021"
publish = false

[dependencies]
async-std = "1"
futures = "0.3"
libc = "0.2"
log = "0.4"
rand = { version = "=0.8.5", features = ["small_rng"] }
simple_logger = "*"
