[package]
name = "ncdprime"
version = "0.1.0"
edition = "2021"
publish = false

[dependencies]
flate2 = "*"
zstd = "*"
brotli = "*"
lz4_flex = "*"
xz2 = "*"
blake3 = "*"
anyhow = "*"
clap = { version = "*", features = ["derive"] }
