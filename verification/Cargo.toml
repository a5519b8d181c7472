[package]
name = "knope"
version = "0.1.0"
edition = "2021"
publish = false

[dependencies]
glob = "0.3"
miette = "7"
relative-path = "2"
serde = { version = "1", features = ["derive"] }
serde_json = { version = "1", features = ["preserve_order"] }
thiserror = "2"
toml = "*"
toml_edit = "*"
