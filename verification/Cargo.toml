[package]
name = "json_ls"
version = "0.1.0"
edition = "2021"
publish = false

[dependencies]
ropey = "*"
anyhow = "*"
serde = { version = "*", features = ["derive"] }
serde_json = "*"
jsonschema = "*"
reqwest = { version = "*", default-features = false, features = ["json"] }
tokio = { version = "*", features = ["full"] }
tower-lsp = "*"
tracing = "*"
tracing-subscriber = { version = "*", features = ["env-filter"] }
