[package]
name = "codex-desktop"
version = "0.1.0"
edition = "2021"
publish = false

[dependencies]
anyhow = "1"
ashpd = { version = "0.11", default-features = false, features = ["tokio"] }
async-trait = "0.1"
ciborium = "0.2"
futures = "0.3"
glib = "0.20"
grep-regex = "0.1"
grep-searcher = "0.1"
gtk4 = { version = "0.9", features = ["v4_12"] }
ignore = "0.4"
inventory = "0.3"
libadwaita = { version = "0.7", features = ["v1_5"] }
pulldown-cmark = { version = "0.10", default-features = false }
regex = "1"
serde = { version = "1", features = ["derive"] }
serde_json = "1"
sourceview5 = "0.9"
thiserror = "2"
tokio = { version = "1", features = ["full"] }
tokio-stream = "0.1"
toml = "0.8"
tracing = "0.1"
tracing-subscriber = { version = "0.3", features = ["env-filter"] }
xxhash-rust = { version = "0.8", features = ["xxh3"] }
