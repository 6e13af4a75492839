[package]
name = "rdrillog"
version = "0.1.0"
edition = "2021"
publish = false

[dependencies]
regex = "1"
chrono = "0.4"
argh = "0.1"
tokio = { version = "1", features = ["rt-multi-thread", "macros", "time"] }
warp = "0.3"
crossterm = "0.27"
ratatui = "0.26"
