[package]
name = "dingooemu"
version = "0.2.0"
edition = "2021"
publish = false

[dependencies]
anyhow = "=1.0.104"
bincode = "=1.3.3"
crc32fast = "=1.5.4"
cranelift = "=0.135.8"
cranelift-jit = "=0.135.8"
cranelift-module = "=0.135.8"
cranelift-native = "=0.135.8"
log = "=0.4.35"
lz4_flex = "=0.14.0"
serde = { version = "=1.0.229", features = ["derive"] }
