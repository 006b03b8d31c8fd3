[package]
name = "text_to_rdf"
version = "0.1.0"
edition = "2021"
publish = false

[dependencies]
serde = { version = "=1.0.229", features = ["derive"] }
serde_json = "=1.0.151"
slug = "=0.1.6"
rust-stemmers = "=1.2.0"
strsim = "=0.11.1"
oxigraph = { version = "=0.5.11", default-features = false }
reqwest = { version = "=0.12.28", default-features = false, features = ["blocking", "json"] }
dotenvy = "=0.15.7"
