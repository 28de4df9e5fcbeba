[package]
name = "feeds_to_pocket"
version = "0.1.0"
edition = "2021"
publish = false

[dependencies]
url = "*"
atom_syndication = "*"
rss = "*"
serde = { version = "*", features = ["derive"] }
serde_json = "*"
serde_yaml = "*"
clap = "*"
reqwest = { version = "*", default-features = false, features = ["blocking"] }
