[package]
name = "regret"
version = "0.1.0"
edition = "2021"
publish = false

[dependencies]
anyhow = "1"
blake3 = "1"
chrono = { version = "0.4", default-features = false, features = ["std", "clock"] }
clap = "4"
git2 = { version = "0.19", default-features = false }
globset = "0.4"
libc = "0.2"
lru = "0.12"
regex = "1"
rusqlite = { version = "0.32", features = ["bundled"] }
serde = { version = "1", features = ["derive"] }
serde_json = "1"
sha2 = "0.10"
toml = "0.8"
