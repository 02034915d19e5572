[package]
name = "hermit_ebpf"
version = "0.1.0"
edition = "2021"
publish = false

[dependencies]
ahash = { version = "=0.8.12", default-features = false }
hashbrown = "=0.16.1"
hermit-sync = "=0.2.0"
lock_api = "=0.4.14"
log = "=0.4.35"
rbpf = { version = "=0.4.1", default-features = false }
