[package]
name = "pypilot"
version = "0.1.0"
edition = "2021"
publish = false

[dependencies]
anyhow = "1"
colored = "2"
directories = "5"
flate2 = "1"
futures = "0.3"
reqwest = { version = "0.12", default-features = false, features = ["json", "rustls-tls"] }
serde = { version = "1", features = ["derive"] }
serde_json = "1"
tar = "0.4"
tokio = { version = "1", features = ["full"] }
toml = "0.8"
tower-lsp = "0.20"
zed_extension_api = "*"
zip = { version = "2", default-features = false, features = ["deflate"] }
