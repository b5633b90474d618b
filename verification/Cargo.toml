[package]
name = "flatten_json_object"
version = "0.1.0"
edition = "2021"
publish = false

[dependencies]
serde_json = "1"
thiserror = "1"
log = "0.4"
