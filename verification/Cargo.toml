[package]
name = "mocktail"
version = "0.1.0"
edition = "2021"
publish = false

[dependencies]
bytes = "1"
futures = "0.3"
http-body = "1"
prost = "0.13"
serde = "1"
serde_json = "1"
