[package]
name = "wiki_redact"
version = "0.1.0"
edition = "2021"
publish = false

[dependencies]
fancy-regex = "=0.11.0"
rand = "=0.8.8"
reqwest = { version = "=0.11.27", features = ["json"] }
rust-stemmers = "=1.2.0"
serde = { version = "=1.0.229", features = ["derive"] }
tokio = { version = "=1.54.1", features = ["macros", "rt-multi-thread"] }
unidecode = "=0.3.0"

[dev-dependencies]
base64 = "=0.21.7"
