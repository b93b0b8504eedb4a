[package]
name = "tailcall"
version = "0.1.0"
edition = "2021"
publish = false

[dependencies]
anyhow = "1"
async-graphql = { version = "7", default-features = false, features = ["dynamic-schema"] }
convert_case = "0.6"
genai = "*"
http = "1"
jsonwebtoken = "9"
oas3 = "*"
prost-reflect = "0.14"
regex = "1"
rustls-pki-types = "1"
serde = { version = "1", features = ["derive"] }
serde_json = { version = "1", features = ["preserve_order"] }
serde_yaml = "0.9"
tokio = { version = "1", features = ["time"] }
tracing = "0.1"
