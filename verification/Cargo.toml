[package]
name = "ogre"
version = "0.1.0"
edition = "2021"
publish = false

[dependencies]
anyhow = "1"
clap = { version = "4", features = ["derive"] }
colored = "2"
glob = "0.3"
notify = "6"
regex = "1"
rustyline = "14"
serde = { version = "1", features = ["derive"] }
serde_json = "1"
similar = "2"
thiserror = "1"
toml = "0.8"

[dev-dependencies]
tempfile = "3"
