[package]
name = "yarr"
version = "0.1.0"
edition = "2021"
publish = false

[dependencies]
rltk = { version = "=0.8.7", features = ["serde"] }
specs = { version = "=0.16.1", default-features = false, features = ["serde"] }
specs-derive = "=0.4.1"
serde = { version = "=1.0.229", features = ["derive"] }
serde_json = "=1.0.154"
