[package]
name = "vibe_coder"
version = "0.1.0"
edition = "2021"
publish = false

[dependencies]
syn = { version = "2", features = ["full"] }
quote = "1"
chrono = "0.4"
ignore = "0.4"
