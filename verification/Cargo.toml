[package]
name = "x5ch_rs"
version = "0.1.0"
edition = "2021"
publish = false

[dependencies]
chrono = { version = "0.4", default-features = false, features = ["std", "clock"] }
dirs = "5"
encoding_rs = "0.8"
fs2 = "0.4"
html-escape = "0.2"
native-tls = "0.2"
nix = { version = "0.29", default-features = false, features = ["signal"] }
once_cell = "1"
regex = "1"
scraper = "0.20"
serde = { version = "1", features = ["derive"] }
serde_json = "1"
thiserror = "1"
tokio = { version = "1", features = ["rt-multi-thread", "macros", "sync"] }
ureq = { version = "2", default-features = false, features = ["native-tls"] }
url = "2"
