[package]
name = "plaid_connector"
version = "0.1.0"
edition = "2021"
publish = false

[dependencies]
once_cell = "1"
rand = "0.7"
rsa = "0.2"
serde_json = "1"
