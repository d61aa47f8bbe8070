[package]
name = "fia_docs_bot"
version = "0.1.0"
edition = "2021"
publish = false

[dependencies]
aws-sign-v4 = "*"
chrono = "*"
dotenvy = "*"
html5ever = "*"
libsql = "*"
reqwest = { version = "*", default-features = false }
serde = { version = "*", features = ["derive"] }
sha256 = "*"
tokio = { version = "*", features = ["rt-multi-thread", "macros", "signal", "time"] }
urlencoding = "*"
