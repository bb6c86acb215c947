[package]
name = "uvessel"
version = "0.1.0"
edition = "2021"
publish = false

[dependencies]
semver = "1"
sha2 = "0.10"
hex = "0.4"
zip = { version = "*", default-features = false, features = ["deflate"] }
reqwest = { version = "0.12", default-features = false, features = ["blocking", "rustls-tls"] }
tempfile = "3"
anyhow = "1"
toml = "*"
serde = { version = "1", features = ["derive"] }
