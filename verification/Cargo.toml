[package]
name = "ldk_lite"
version = "0.1.0"
edition = "2021"
publish = false

[dependencies]
lightning = "=0.0.110"
lightning-invoice = "=0.18.0"
lightning-persister = "=0.0.110"
bitcoin = "=0.28.2"
bdk = { version = "=0.20.0", default-features = false, features = ["key-value-db", "use-esplora-reqwest"] }
rand = "=0.8.8"
libc = "=0.2.191"
