[package]
name = "kimi-pet"
version = "0.1.0"
edition = "2021"
publish = false

[dependencies]
dirs = "6"
futures-util = { version = "0.3", default-features = false, features = ["sink", "std"] }
reqwest = { version = "0.12", default-features = false, features = ["json"] }
serde_json = "1"
tokio = { version = "1", features = ["macros", "sync", "time", "rt"] }
tokio-tungstenite = "0.26"
toml_edit = "0.22"
