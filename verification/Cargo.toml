[package]
name = "fast_mvt"
version = "0.1.0"
edition = "2021"
publish = false

[dependencies]
buffa = "*"
dup-indexer = "*"
usize_cast = "*"
geo-types = "*"
serde_json = "1"
thiserror = "*"
clap = { version = "4", features = ["derive"] }
