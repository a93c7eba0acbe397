[package]
name = "ovds"
version = "0.6.0"
edition = "2021"
publish = false

[dependencies]
data-encoding = "2"
ed25519-dalek = { version = "2", features = ["rand_core"] }
rand = "0.8"
sha2 = "0.10"
sha3 = "0.10"
anyhow = "1"
bytemuck = "1"
crossterm = "0.28"
pollster = "0.3"
ratatui = "0.28"
rayon = "1"
wgpu = "22"

[dev-dependencies]
curve25519-dalek = "4"
