[package]
name = "ruby_releases"
version = "0.1.0"
edition = "2021"
publish = false

[dependencies]
async-trait = "0.1"
csv = "1"
regex = "1"
reqwest = "0.11"
semver = "1"
serde = { version = "1", features = ["derive"] }
serde_json = "1"
tokio = { version = "1", features = ["macros", "rt-multi-thread"] }
