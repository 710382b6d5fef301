[package]
name = "asset_cli"
version = "0.1.0"
edition = "2021"
publish = false

[dependencies]
rand = "0.8"
chrono = "0.4"
crossterm = "0.25"
tui = "0.19"
tokio = { version = "1", features = ["macros", "rt-multi-thread"] }
git2 = "*"
