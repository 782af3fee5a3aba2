[package]
name = "picomux"
version = "0.1.0"
edition = "2021"
publish = false

[dependencies]
ahash = "=0.8.12"
anyhow = "1"
async-channel = "2"
async-io = "2"
async-task = "4"
bipe = "0.2"
blake3 = { version = "=1.8.7", features = ["pure"] }
bytes = "=1.12.1"
dashmap = "=5.5.3"
fastrand = "2"
futures-intrusive = "0.5"
futures-lite = "2"
futures-util = { version = "0.3", features = ["io"] }
libc = "0.2"
once_cell = "1"
oneshot = "0.1"
parking_lot = "0.12"
pin-project = "1"
rand = "=0.8.8"
scopeguard = "1"
serde = { version = "1", features = ["derive"] }
serde_json = "1"
smol = "2"
smol-timeout2 = "0.6"
smolscale = "0.4"
socksv5 = "0.3"
tachyonix = "0.3"
tracing = "0.1"
tun = "0.6"
x25519-dalek = "=2.0.1"
