[package]
name = "cyberkit"
version = "0.1.0"
edition = "2021"
publish = false

[dependencies]
aho-corasick = "1"
serde_json = "1"
serde = { version = "1", features = ["derive"] }
url = "2"
scraper = "*"
chrono = "0.4"
clap = { version = "4", features = ["derive"] }
colored = "*"
crossterm = "*"
ratatui = "*"
reqwest = { version = "*", default-features = false }
tokio = { version = "1", features = ["rt-multi-thread", "macros", "net", "time", "io-util"] }
ipnetwork = "*"
