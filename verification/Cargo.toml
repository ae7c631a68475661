[package]
name = "gitpeek"
version = "0.1.0"
edition = "2021"
publish = false

[dependencies]
arboard = { version = "*", default-features = false }
config = { version = "*", default-features = false, features = ["json"] }
dialoguer = { version = "*", default-features = false, features = ["fuzzy-select"] }
pico-args = "*"
serde = { version = "*", features = ["derive"] }
serde_json = "*"
