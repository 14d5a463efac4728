[package]
name = "vidbloq_market"
version = "0.1.0"
edition = "2021"
publish = false

[dependencies]
ephemeral-vrf-sdk = { version = "=0.17.3", features = ["anchor"] }
anchor-lang = { version = "*", features = ["init-if-needed"] }
anchor-spl = "*"
