[package]
name = "schedule_assistant"
version = "0.1.0"
edition = "2021"
publish = false

[dependencies]
url = "*"
reqwest = { version = "*", features = ["blocking", "json"] }
serde_json = "*"
chrono = "*"
dotenv = "*"
