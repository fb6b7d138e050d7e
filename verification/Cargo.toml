[package]
name = "futures-concurrency"
version = "0.1.0"
edition = "2021"
publish = false

[dependencies]
slab = "0.4"
smallvec = "1"
bitvec = "1"
pin-project = "1"
futures-lite = "2"
futures-core = "0.3"
async-trait = "0.1"
