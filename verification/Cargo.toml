[package]
name = "tink_aead"
version = "0.1.0"
edition = "2021"
publish = false

[dependencies]
tink-core = "*"
tink-proto = "*"
xaes-256-gcm = "*"
