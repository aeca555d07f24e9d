[package]
name = "clog_tracker"
version = "0.1.0"
edition = "2021"
publish = false

[dependencies]
chrono = { version = "*", features = ["serde"] }
crossterm = "*"
pyo3 = "*"
ratatui = "*"
serde = { version = "*", features = ["derive"] }
