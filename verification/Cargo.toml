[package]
name = "coverage_diff"
version = "0.1.0"
edition = "2021"
publish = false

[dependencies]
reqwest = "0.9"
serde = { version = "1", features = ["derive"] }
serde_json = "1"
structopt = "0.3"
