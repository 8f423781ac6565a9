[package]
name = "wanted"
version = "0.1.0"
edition = "2021"
publish = false

[dependencies]
semver = "1"
sha2 = "0.10"
zip = { version = "2", default-features = false, features = ["deflate"] }
tar = "0.4"
flate2 = "1"
xz2 = "0.1"
ureq = "2"
serde = { version = "1", features = ["derive"] }
serde_json = "1"
toml = "0.8"
clap = { version = "4", features = ["derive"] }
ctrlc = "3"
indicatif = "0.17"

[dev-dependencies]
tempfile = "3"
