[package]
name = "infinite_scraper"
version = "0.1.0"
edition = "2021"
publish = false

[dependencies]
url = "*"
scraper = "*"
regex = "*"
cssparser = "*"
chrono = "*"
reqwest = { version = "*", default-features = false }
tokio = { version = "*", features = ["rt-multi-thread", "macros", "time", "sync"] }
structopt = "*"
colored = "*"
rand = "*"

[dev-dependencies]
serde_json = "*"
