[package]
name = "valcurt"
version = "0.1.0"
edition = "2021"
publish = false

[dependencies]
rand = { version = "0.8", features = ["small_rng"] }
sux = "*"
bitm = "*"
mem_dbg = "*"
core_affinity = "*"
tqdm = "*"
criterion = { version = "*", default-features = false }
