[package]
name = "pathcrawler"
version = "0.1.0"
edition = "2021"
publish = false

[dependencies]
quick-xml = "0.31"
regex = "1"
reqwest = { version = "0.11", default-features = false, features = ["blocking", "rustls-tls"] }
scraper = "0.18"
