[package]
name = "imlab"
version = "0.1.0"
edition = "2021"
publish = false

[dependencies]
ahash = "*"
anyhow = "*"
colored = "*"
csv = "*"
hashbrown = "*"
indexmap = "*"
libloading = "*"
rand = "0.9"
rayon = "*"
rustyline = "*"
thiserror = "*"
thread_local = "*"
