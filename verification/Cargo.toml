[package]
name = "websites"
version = "0.1.0"
edition = "2021"
publish = false

[dependencies]
regex = "=1.13.1"
url = "=2.5.8"
uuid = { version = "=1.29.0", features = ["v7"] }
chrono = "=0.4.45"
quick-xml = "=0.37.5"
clap = { version = "=4.6.7", features = ["derive", "env"] }
serde = { version = "=1.0.229", features = ["derive"] }
serde_json = "=1.0.154"
markdown = "=1.0.0"
mime_guess = "=2.0.5"
