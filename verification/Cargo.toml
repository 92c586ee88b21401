[package]
name = "datepoll"
version = "0.1.0"
edition = "2021"
publish = false

[dependencies]
chrono = "0.4"
serde = { version = "1", features = ["derive"] }
serenity = { version = "0.11", features = ["collector"] }
log = "0.4"
