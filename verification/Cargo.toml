[package]
name = "verify_node_modules"
version = "0.1.0"
edition = "2021"
publish = false

[dependencies]
serde_json = "1"
futures = "0.3"
