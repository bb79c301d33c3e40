[package]
name = "quex"
version = "0.1.0"
edition = "2021"
publish = false

[dependencies]
clap = { version = "*", features = ["derive"] }
confy = "*"
pulldown-cmark = "*"
serde = { version = "*", features = ["derive"] }
serde_json = "*"
thiserror = "*"
time = "*"
zemen = "*"
