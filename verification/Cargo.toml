[package]
name = "tencent_mars_xlog_util"
version = "0.1.0"
edition = "2021"
publish = false

[dependencies]
anyhow = "=1.0.104"
clap = { version = "=3.2.25", features = ["derive"] }
flate2 = "=1.0.35"
k256 = { version = "=0.13.4", default-features = false, features = ["arithmetic", "ecdh"] }
memmap = "=0.7.0"
path-absolutize = "=3.1.1"
rand_core = { version = "=0.6.4", features = ["getrandom"] }
walkdir = "=2.5.0"
zstd = "=0.13.3"
