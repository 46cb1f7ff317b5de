[package]
name = "subquote"
version = "0.1.0"
edition = "2021"

[dependencies]
getopts = "0.2"
rand = "0.7"
regex = "1"
serde = { version = "1", features = ["derive"] }
serde_json = "1"
