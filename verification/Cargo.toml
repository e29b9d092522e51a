[package]
name = "clikipedia_tui"
version = "0.1.0"
edition = "2021"
publish = false

[dependencies]
scraper = "=0.27.0"
ego-tree = "=0.11.0"
reqwest = { version = "=0.12.28", default-features = false, features = ["rustls-tls"] }
tokio = { version = "=1.53.2", features = ["macros", "rt"] }
clap = "=4.6.7"
crossterm = "=0.29.0"
ratatui = { version = "=0.30.2", features = ["unstable-rendered-line-info"] }
