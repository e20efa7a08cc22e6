[package]
name = "sparsey"
version = "0.1.0"
edition = "2021"
publish = false

[dependencies]
atomic_refcell = "0.1"
rayon = "1"
rustc-hash = "2"
