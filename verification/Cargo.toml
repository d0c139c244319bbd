[package]
name = "sync_key_gen"
version = "0.1.0"
edition = "2021"
publish = false

[dependencies]
threshold_crypto = "=0.4.0"
bincode = "=1.3.3"
rand = "=0.7.3"
