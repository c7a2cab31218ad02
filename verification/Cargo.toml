[package]
name = "ranking"
version = "0.1.0"
edition = "2021"
publish = false

[dependencies]
clap = { version = "4", features = ["derive"] }
dotenv = "0.15"
postgres = "0.19"
serde = { version = "1", features = ["derive"] }
serde_json = "1"
