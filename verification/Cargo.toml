[package]
name = "eureka_mmanager"
version = "0.1.0"
edition = "2021"
publish = false

[dependencies]
rand = "=0.9.5"
regex = "=1.13.1"
uuid = { version = "=1.29.0", features = ["v4", "serde"] }
serde = { version = "=1.0.229", features = ["derive"] }
serde_json = "=1.0.154"
ciborium = "=0.2.2"
tar = "=0.4.46"
zstd = "=0.14.3"
tempfile = "=3.27.0"
thiserror = "=2.0.21"
non-exhaustive = "=0.1.1"
mangadex-api-schema-rust = { version = "=1.1.0", features = ["serialize"] }
mangadex-api-types-rust = "=1.0.1"
mangadex-api-input-types = "=1.0.1"
image = { version = "=0.25.10", default-features = false, features = ["jpeg", "png", "gif"] }
