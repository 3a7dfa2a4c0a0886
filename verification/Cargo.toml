[package]
name = "mail_queue"
version = "0.1.0"
edition = "2021"
publish = false

[dependencies]
rand = "0.8"
form_urlencoded = "1"
mail-parser = "*"
tokio = { version = "1", features = ["rt-multi-thread", "sync", "time", "macros"] }
serde = { version = "1", features = ["derive"] }
