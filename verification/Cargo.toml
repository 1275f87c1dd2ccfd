[package]
name = "pesde"
version = "0.1.0"
edition = "2021"
publish = false

[dependencies]
semver = "=1.0.28"
serde = { version = "=1.0.229", features = ["derive"] }
serde_json = "=1.0.154"
serde_yaml = "=0.9.34"
toml = "=0.8.23"
anyhow = "=1.0.104"
clap = { version = "=4.6.7", features = ["derive"] }
thiserror = "=1.0.69"
relative-path = "=1.9.3"
pathdiff = "=0.2.3"
url = "=2.5.8"
log = "=0.4.35"
colored = "=2.2.0"
full_moon = { version = "=1.2.0", features = ["luau"] }
dirs = "=5.0.1"
tar = "=0.4.46"
flate2 = "=1.1.10"
reqwest = { version = "=0.12.28", default-features = false, features = ["blocking", "rustls-tls", "json", "multipart"] }
zip = { version = "=2.6.1", default-features = false, features = ["deflate"] }
git2 = "=0.19.0"
