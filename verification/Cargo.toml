[package]
name = "inventory_ledger"
version = "0.1.0"
edition = "2021"
publish = false

[dependencies]
candid = "*"
ic-cdk = "*"
ic-cdk-macros = "*"
serde = { version = "1", features = ["derive"] }
