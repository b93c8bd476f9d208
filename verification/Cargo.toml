[package]
name = "ttt"
version = "0.1.0"
edition = "2021"
publish = false

[dependencies]
anyhow = "1"
expectrl = "0.6"
nix = "0.26"
thiserror = "1"
