[package]
name = "jp_bulk_anki"
version = "0.1.0"
edition = "2021"
publish = false

[dependencies]
scraper = "*"
urlencoding = "*"
reqwest = { version = "*", default-features = false, features = ["blocking"] }
genanki-rs = "*"
clap = "3"
main_error = "*"
thiserror = "*"

[dev-dependencies]
regex = "*"
