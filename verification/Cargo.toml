[package]
name = "battilde"
version = "0.1.0"
edition = "2021"
publish = false

[dependencies]
rand = "0.8"
serde = { version = "1", features = ["derive"] }
serde_json = "1"
structopt = "0.3"
chrono = "0.4"
ctrlc = "3"
unicode_categories = "0.1"
