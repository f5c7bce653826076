[package]
name = "hft_demos"
version = "0.1.0"
edition = "2021"
publish = false

[dependencies]
slab = "0.4"
serde = { version = "1", features = ["derive"] }
serde_json = "1"
thiserror = "2"
chrono = "0.4"
clap = { version = "4", features = ["derive"] }
hdrhistogram = "7"
quanta = "0.12"
core_affinity = "0.8"
libc = "0.2"
stats_alloc = "0.1"
zerocopy = { version = "0.8", features = ["derive"] }
