[package]
name = "sfl_service"
version = "0.1.0"
edition = "2021"
publish = false

[dependencies]
prettytable-rs = { version = "*", default-features = false, features = ["csv"] }
serde = { version = "1", features = ["derive"] }
serde_json = "1"
chrono = { version = "0.4", features = ["serde"] }
uuid = { version = "1", features = ["v4", "serde"] }
lazy_static = "1"
config = { version = "*", default-features = false, features = ["toml"] }
reqwest = { version = "*", default-features = false, features = ["blocking"] }
rocket = { version = "0.5", features = ["json"] }
