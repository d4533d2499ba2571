[package]
name = "cite_me_bro"
version = "0.1.0"
edition = "2021"
publish = false

[dependencies]
chrono = { version = "0.4", default-features = false, features = ["alloc"] }
unicode-segmentation = "1"
anyhow = "1"
clap = { version = "4", features = ["derive"] }
log = "0.4"
colog = "1"
colored = "2"
mdbook = { version = "0.4", default-features = false }
toml = "0.5"

[dev-dependencies]
nom = "7"
parse-hyperlinks = "*"
