[package]
name = "nodejs_resolver"
version = "0.1.0"
edition = "2021"
publish = false

[dependencies]
serde = { version = "1", features = ["derive"] }
serde_json = { version = "1", features = ["preserve_order"] }
path-absolutize = "3"
daachorse = "1"
json_comments = "*"
regex = "1"
dunce = "1"
