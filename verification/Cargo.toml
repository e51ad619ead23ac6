[package]
name = "rustic_boards"
version = "0.1.0"
edition = "2021"
publish = false

[dependencies]
bincode = "1"
chrono = "0.4"
cli-table = "0.4"
home = "0.5"
inquire = "0.7"
serde = { version = "1", features = ["derive"] }
