[package]
name = "consult"
version = "0.1.0"
edition = "2021"
publish = false

[dependencies]
anyhow = "1"
iroh = { version = "*", default-features = false }
serde_json = "1"
tokio = { version = "1", features = ["macros", "rt", "time"] }
tracing = "0.1"
