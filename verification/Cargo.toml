[package]
name = "linkstore"
version = "0.1.0"
edition = "2021"
publish = false

[dependencies]
anyhow = "=1.0.104"
fs_extra = "=1.3.0"
tinyjson = "=2.5.1"
tikv-jemallocator = "=0.7.0"
