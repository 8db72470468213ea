[package]
name = "geocode"
version = "0.1.0"
edition = "2021"
publish = false

[dependencies]
csv = "1"
reqwest = "0.12"
serde = { version = "1", features = ["derive"] }
serde_json = "1"
structopt = "0.3"
tokio = { version = "1", features = ["macros", "rt-multi-thread"] }
