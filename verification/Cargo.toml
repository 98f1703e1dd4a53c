[package]
name = "repub"
version = "0.1.0"
edition = "2021"
publish = false

[dependencies]
chrono = "=0.4.45"
clap = "=2.34.0"
colored_truecolor = "=0.1.0"
comrak = { version = "=0.55.0", default-features = false }
env_logger = "=0.11.11"
failure = "=0.1.8"
html5ever = "=0.39.0"
log = "=0.4.34"
markup5ever_rcdom = "=0.39.0"
rand = "=0.8.8"
serde = { version = "=1.0.229", features = ["derive"] }
serde_json = "=1.0.154"
zip = { version = "=9.1.0", default-features = false, features = ["deflate"] }
