[package]
name = "xlsplice"
version = "0.1.0"
edition = "2021"
publish = false

[dependencies]
roxmltree = "*"
zip = { version = "*", default-features = false, features = ["deflate"] }
serde = { version = "1", features = ["derive"] }
serde_json = "1"
clap = { version = "4", features = ["derive"] }
