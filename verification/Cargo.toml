[package]
name = "data_analysis"
version = "0.1.0"
edition = "2021"
publish = false

[dependencies]
colored = "2"
csv = "1"
dotenv = "0.15"
hex = "0.4"
hmac = "0.12"
reqwest = { version = "0.12", features = ["blocking", "json"] }
serde = { version = "1", features = ["derive"] }
serde_json = "1"
sha2 = "0.10"
