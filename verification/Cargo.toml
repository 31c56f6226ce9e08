[package]
name = "hypercore_storage"
version = "0.1.0"
edition = "2021"
publish = false

[dependencies]
failure = "=0.1.8"
flat-tree = "3"
random-access-disk = "0.4"
random-access-memory = "=0.3.0"
random-access-storage = "=0.4.0"
sleep-parser = "0.8"
ed25519-dalek = { version = "=2.2.0", features = ["rand_core"] }
rand_core = { version = "=0.6.4", features = ["getrandom"] }
