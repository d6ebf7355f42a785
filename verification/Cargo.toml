[package]
name = "uzbot"
version = "0.1.0"
edition = "2021"
publish = false

[dependencies]
chrono = "*"
chrono-tz = "*"
dotenvy = "*"
futures = "*"
html_parser = "*"
pdf-extract = "*"
reqwest = { version = "*", default-features = false, features = ["rustls-tls"] }
# Not used directly: teloxide needs takecell ^0.1, and 0.1.2 wants a newer
# rustc than the toolchain here has, so hold the resolver at 0.1.1.
takecell = "=0.1.1"
teloxide = { version = "*", default-features = false, features = ["rustls", "ctrlc_handler", "macros"] }
tokio = { version = "*", features = ["macros", "rt-multi-thread", "time"] }
tracing = "*"
tracing-appender = "*"
tracing-subscriber = { version = "*", features = ["env-filter"] }
