[package]
name = "bpt"
version = "0.1.0"
edition = "2021"
publish = false

[dependencies]
base64 = "0.22"
camino = "1"
minisign = "0.7"
zstd = "0.13"
tar = "0.4"
sha2 = "0.10"
zeroize = "1"
regex-lite = "0.1"
thiserror = "2"
dirs = "6"
nix = { version = "0.29", features = ["fs", "user", "process", "term", "poll"] }
