[package]
name = "scp-pack"
version = "0.1.0"
edition = "2021"
publish = false

[dependencies]
serde_json = { version = "1", features = ["preserve_order"] }
zip = { version = "2", default-features = false, features = ["deflate"] }
walkdir = "2"
clap = { version = "4", features = ["derive"] }
