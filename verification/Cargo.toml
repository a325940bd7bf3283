[package]
name = "film_notes"
version = "0.1.0"
edition = "2021"
publish = false

[dependencies]
chrono = { version = "0.4", default-features = false, features = ["clock"] }
dotenv = "0.15"
regex = "1"
uuid = { version = "1", features = ["v4"] }
