[package]
name = "mauveweasel"
version = "0.1.0"
edition = "2021"
publish = false

[dependencies]
bincode = "1"
chrono = { version = "0.4", features = ["serde"] }
comrak = { version = "*", default-features = false }
handlebars = { version = "4", features = ["dir_source"] }
lru-cache = "0.1"
serde = { version = "1", features = ["derive"] }
serde_derive = "1"
serde_urlencoded = "0.7"
tiny_http = "0.12"
toml = "0.5"
uuid = { version = "1", features = ["v4"] }
