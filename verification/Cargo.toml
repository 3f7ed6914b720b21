[package]
name = "dupscan"
version = "0.1.0"
edition = "2021"
publish = false

[dependencies]
base16ct = { version = "*", features = ["alloc"] }
clap = { version = "*", features = ["derive"] }
glob = "*"
indicatif = { version = "*", features = ["rayon"] }
md-5 = "*"
rayon = "*"
serde = { version = "*", features = ["derive"] }
serde_json = "*"
