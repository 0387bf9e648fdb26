[package]
name = "qaqh_tui"
version = "0.1.0"
edition = "2021"
publish = false

[dependencies]
chrono = { version = "=0.4.45", default-features = false, features = ["clock", "std"] }
pulldown-cmark = { version = "=0.13.6", default-features = false }
ratatui = { version = "=0.29.0", default-features = false, features = ["crossterm"] }
serde_json = { version = "=1.0.154", features = ["preserve_order"] }
syntect = { version = "=5.3.0" }
tokio = { version = "=1.54.1", features = ["rt", "sync", "time", "fs", "macros"] }
unicode-width = "=0.2.0"
uuid = { version = "=1.29.0", features = ["v4"] }
