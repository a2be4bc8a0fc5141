[package]
name = "rsstygen"
version = "0.1.0"
edition = "2021"
publish = false

[dependencies]
anyhow = "1"
chrono = "0.4"
colored = "2"
fantoccini = "0.19"
ftp = "3"
futures = "0.3"
rss = "2"
rusqlite = { version = "*", features = ["bundled", "chrono"] }
serde_json = "1"
tokio = { version = "1", features = ["macros", "rt-multi-thread", "process", "time"] }
toml = "0.5"
