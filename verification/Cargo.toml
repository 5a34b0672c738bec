[package]
name = "o89_core"
version = "0.1.0"
edition = "2021"
publish = false

[dependencies]
crc = "=3.4.0"
embedded-storage-async = "=0.4.2"
km43 = "=0.8.1"

[dev-dependencies]
sha2 = "=0.11.1"
