[package]
name = "slab-pool"
version = "0.1.0"
edition = "2021"
publish = false

[dependencies]
thiserror = "*"

[dev-dependencies]
loom = "0.7"
