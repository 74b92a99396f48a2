[package]
name = "dev2step"
version = "0.1.0"
edition = "2021"
publish = false

[dependencies]
chrono = "0.4"
clap = { version = "4", features = ["derive"] }
dirs = "5"
notify = "6"
rusqlite = { version = "0.31", features = ["bundled"] }
