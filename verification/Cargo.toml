[package]
name = "wikigit"
version = "0.1.0"
edition = "2021"
publish = false

[dependencies]
clap = { version = "=4.6.7", features = ["derive"] }
csv = "=1.4.0"
git2 = { version = "=0.21.0", default-features = false }
reqwest = { version = "=0.13.5", default-features = false, features = ["json", "query"] }
serde = { version = "=1.0.229", features = ["derive"] }
serde_json = "=1.0.151"
serde-xml-rs = "=0.8.2"
time = { version = "=0.3.55", features = ["parsing", "formatting"] }
tokio = { version = "=1.53.2", features = ["rt", "rt-multi-thread", "macros", "sync", "fs", "io-util"] }
tracing = "=0.1.44"
tracing-subscriber = { version = "=0.3.23", features = ["env-filter"] }
urlencoding = "=2.1.3"
