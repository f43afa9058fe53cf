[package]
name = "web_scraper"
version = "0.1.0"
edition = "2021"
publish = false

[dependencies]
regex = "1"
reqwest = "*"
text-colorizer = "1"
tokio = { version = "1", features = ["macros", "rt-multi-thread"] }
