[package]
name = "ollama_translator"
version = "0.1.0"
edition = "2021"
publish = false

[dependencies]
reqwest = { version = "0.12", features = ["blocking", "json"] }
serde_json = "1"
thiserror = "1"
