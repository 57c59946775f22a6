[package]
name = "syncpack"
version = "0.1.0"
edition = "2021"
publish = false

[dependencies]
clap = { version = "4", features = ["cargo"] }
colored = "2"
env_logger = "0.11"
glob = "0.3"
icu = "1"
itertools = "0.13"
log = "0.4"
node-semver = "2"
regex = "1"
serde = { version = "1", features = ["derive"] }
serde_json = { version = "1", features = ["preserve_order"] }
