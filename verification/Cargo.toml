[package]
name = "plato"
version = "0.1.0"
edition = "2021"
publish = false

[dependencies]
fnv = "1"
regex = "1"
titlecase = "*"
html-entities = "*"
chrono = "0.4"
getopts = "0.2"
serde = { version = "1", features = ["derive"] }
serde_json = "1"
downcast-rs = "1"
reqwest = { version = "*", default-features = false, features = ["blocking"] }
