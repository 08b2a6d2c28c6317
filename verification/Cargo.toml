[package]
name = "accepted"
version = "0.1.0"
edition = "2021"
publish = false

[dependencies]
unicode-width = "0.1"
termion = "1.5"
clap = "2"
config = { version = "0.9", default-features = false, features = ["toml"] }
dirs = "2"
rbtag = "*"
serde = "1"
serde_derive = "1"
serde_json = "1"
shellexpand = "1"
