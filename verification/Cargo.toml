[package]
name = "http_boundary"
version = "0.1.0"
edition = "2021"
publish = false

[dependencies]
reqwest = { version = "0.11", default-features = false }
serde = { version = "1", features = ["derive"] }
serde_bytes = "0.11"
serde_json = "1"
thiserror = "1"
async-trait = "0.1"
async-graphql = { version = "7", default-features = false }
custom_debug_derive = "0.6"
linera-witty = "0.15"
