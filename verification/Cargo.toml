[package]
name = "github_parser"
version = "0.1.0"
edition = "2021"
publish = false

[dependencies]
postgres = "*"
serde = { version = "*", features = ["derive"] }
serde_json = "*"
