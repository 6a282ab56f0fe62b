[package]
name = "incremental"
version = "0.1.0"
edition = "2021"
publish = false

[dependencies]
anyhow = "1"
either = "1"
indexmap = "1.9"
dupe = "0.9"
thiserror = "1"
async-trait = "0.1"
futures = "0.3"
derive_more = "0.99"
ref-cast = "1"
allocative = "0.3"
