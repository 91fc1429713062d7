[package]
name = "efi_certs"
version = "0.1.0"
edition = "2021"
publish = false

[dependencies]
anyhow = "=1.0.104"
authenticode = { version = "=0.6.0", features = ["object"] }
glob = "=0.3.4"
object = "=0.39.1"
openssl = "=0.10.82"
sha2 = "=0.10.9"
