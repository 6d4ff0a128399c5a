[package]
name = "curseforge"
version = "0.1.0"
edition = "2021"
publish = false

[dependencies]
regex = "1"
roxmltree = "0.20"
urlencoding = "2"
anyhow = "1"
dotenvy = "0.15"
once_cell = "1"
reqwest = "0.12"
rustyline = "*"
serde = { version = "1", features = ["derive"] }
serde_json = "1"
tokio = { version = "1", features = ["full"] }
zip = "*"

[dev-dependencies]
clap = "4"
