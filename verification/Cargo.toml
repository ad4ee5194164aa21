[package]
name = "nffs_info"
version = "0.1.0"
edition = "2021"
publish = false

[dependencies]
crc16 = "0.4"
regex = "1"
lazy_static = "1"
log = "0.4"
env_logger = "0.10"
docopt = "1"
serde = { version = "1", features = ["derive"] }
libc = "0.2"
crc = "1"
