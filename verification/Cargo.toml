[package]
name = "m8_nexus"
version = "0.1.0"
edition = "2021"
publish = false

[dependencies]
flate2 = "1"
sha2 = "0.10"
actix-web = "4"
actix-files = "0.6"
actix-multipart = "*"
actix-ws = "*"
async-stream = "*"
futures-util = "0.3"
tokio = { version = "1", features = ["sync", "macros", "rt-multi-thread"] }
serde = { version = "1", features = ["derive"] }
serde_json = "1"
tracing = "0.1"
tracing-subscriber = { version = "0.3", features = ["env-filter"] }
