[package]
name = "embeddenator_workspace"
version = "0.1.0"
edition = "2021"
publish = false

[dependencies]
anyhow = "1"
clap = { version = "4", features = ["derive"] }
colored = "2"
git2 = { version = "*", default-features = false }
semver = "1"
serde = { version = "1", features = ["derive"] }
serde_json = "1"
tokio = { version = "1", features = ["rt-multi-thread", "macros"] }
toml_edit = "0.22"
walkdir = "2"

[dev-dependencies]
tempfile = "3"
