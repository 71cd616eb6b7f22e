[package]
name = "rcgenmsg"
version = "0.1.0"
edition = "2021"
publish = false

[dependencies]
regex = "1"
Inflector = "0.11"
rust-crypto = "0.2.36"
handlebars = "*"
serde = { version = "1", features = ["derive"] }
serde_json = "1"
argparse = "0.2"
