[package]
name = "hyperlit"
version = "0.1.0"
edition = "2021"
publish = false

[dependencies]
regex = "=1.13.1"
serde_yaml = "=0.9.34"
zip = { version = "=2.6.1", default-features = false, features = ["deflate"] }
uuid = { version = "=1.29.0", features = ["v4"] }
syntect = { version = "=5.3.0", default-features = false, features = ["parsing", "default-syntaxes", "regex-fancy"] }
two-face = { version = "*", default-features = false, features = ["syntect-fancy"] }
toml-span = "*"
globset = "=0.4.21"
tiny_http = "=0.12.0"
serde = { version = "=1.0.229", features = ["derive"] }
serde_json = "=1.0.154"
clap = { version = "=4.6.7", features = ["derive"] }
walkdir = "=2.5.0"
tracing = "=0.1.44"
tracing-subscriber = "=0.3.23"
