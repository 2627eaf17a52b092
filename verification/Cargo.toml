[package]
name = "icon_scraper"
version = "0.1.0"
edition = "2021"
publish = false

[dependencies]
url = "=2.5.8"
kuchiki = "=0.8.1"
image = { version = "=0.25.10", default-features = false, features = ["png", "jpeg", "gif", "ico"] }
reqwest = { version = "=0.13.5", default-features = false, features = ["blocking", "charset"] }
