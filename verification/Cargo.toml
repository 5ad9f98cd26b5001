[package]
name = "planner"
version = "0.1.0"
edition = "2021"
publish = false

[dependencies]
chrono = "0.4"
chrono-tz = "0.10"
color-eyre = "0.6"
ratatui = "0.29"

[dev-dependencies]
serde_json = "1"
