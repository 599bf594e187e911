[package]
name = "heapstore"
version = "0.1.0"
edition = "2021"
publish = false

[dependencies]
rand = "0.9"
libc = "0.2"
log = "0.4"
env_logger = "0.11"
