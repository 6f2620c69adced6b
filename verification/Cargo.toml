[package]
name = "crushr"
version = "0.1.0"
edition = "2021"
publish = false

[dependencies]
anyhow = "1"
blake3 = "1"
clap = "4"
clap_complete = "4"
clap_mangen = "0.2"
serde_json = "1"
zstd = "0.13"
