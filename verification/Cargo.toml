[package]
name = "dao_admin"
version = "0.1.0"
edition = "2021"
publish = false

[dependencies]
candid = "0.10"
ic-cdk = "0.16"
ic-cdk-macros = "0.16"
regex = "1"
serde = { version = "1", features = ["derive"] }
serde_json = "1"
