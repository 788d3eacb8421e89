[package]
name = "meplang"
version = "0.1.0"
edition = "2021"

[dependencies]
bytes = "1"
hex = "0.4"
indexmap = "2"
rand = "0.8"
pest = "2"
pest_derive = "2"
serde = { version = "1", features = ["derive"] }
serde_json = "1"
tracing = "0.1"
tracing-subscriber = { version = "0.3", features = ["env-filter"] }
