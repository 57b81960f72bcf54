[package]
name = "note_dapp_with_ii_backend"
version = "0.1.0"
edition = "2021"
publish = false

[dependencies]
candid = "=0.10.39"
ic-cdk = "=0.17.2"
ic-stable-structures = "=0.6.9"
serde = "=1.0.229"
