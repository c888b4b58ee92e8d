[package]
name = "yayatht"
version = "0.1.0"
edition = "2021"
publish = false

[dependencies]
base64 = "0.22"
clap = { version = "4", features = ["derive"] }
getrandom = "0.3"
libc = "0.2"
linux-raw-sys = { version = "*", features = ["net"] }
rustix = { version = "1", features = ["process", "fs"] }
serde = { version = "1", features = ["derive"] }
serde_json = "1"
thiserror = "2"
tracing = "0.1"
tracing-subscriber = { version = "0.3", features = ["env-filter"] }
zeroize = "1"
