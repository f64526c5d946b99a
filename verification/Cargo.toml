[package]
name = "protohub"
version = "0.1.0"
edition = "2021"
publish = false

[dependencies]
anyhow = "1"
bytes = "1"
http = "*"
prost = "*"
prost-reflect = { version = "*", features = ["serde"] }
prost-types = "*"
protox = "*"
serde = { version = "1", features = ["derive"] }
serde_json = "1"
tonic = "*"
