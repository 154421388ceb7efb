[package]
name = "flood_chat"
version = "0.1.0"
edition = "2021"
publish = false

[dependencies]
prost = { version = "=0.14.4", default-features = false, features = ["std"] }
libp2p = { version = "=0.55.0", features = ["async-std", "floodsub", "mdns", "tcp", "noise", "yamux", "macros"] }
async-std = "=1.13.2"
futures = "=0.3.34"
anyhow = "=1.0.104"
env_logger = "=0.11.11"
