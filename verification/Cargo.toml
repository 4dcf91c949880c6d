[package]
name = "stepwise_pairing"
version = "0.1.0"
edition = "2021"
publish = false

[dependencies]
ark-bn254 = { version = "=0.3.0", default-features = false, features = ["curve"] }
ark-ff = { version = "=0.3.0", default-features = false }
base64 = "=0.13.1"
casper-contract = { version = "=1.4.4", default-features = false }
casper-types = "=1.5.0"

[dev-dependencies]
ark-ec = { version = "=0.3.0", default-features = false }
ark-std = { version = "=0.3.0", default-features = false }
