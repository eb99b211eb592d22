[package]
name = "obj2asterix"
version = "0.1.0"
edition = "2021"
publish = false

[dependencies]
hard-xml = "1"
serde = { version = "1", features = ["derive"] }
serde_json = "1"
thiserror = "1"
