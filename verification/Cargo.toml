[package]
name = "sec_facts"
version = "0.1.0"
edition = "2021"
publish = false

[dependencies]
tantivy = "=0.19.2"
serde = { version = "1", features = ["derive"] }
serde_json = "1"

[dev-dependencies]
tempfile = "3"
