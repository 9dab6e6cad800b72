[package]
name = "tether"
version = "0.1.0"
edition = "2021"
publish = false

[dependencies]
argon2 = "0.5"
rand = "0.8"
dashmap = "6"
uuid = { version = "1", features = ["v4"] }
axum = { version = "0.8", features = ["ws"] }
axum-extra = { version = "0.10", features = ["cookie"] }
clap = { version = "4", features = ["derive"] }
tokio = { version = "1", features = ["full"] }
tower-http = { version = "0.6", features = ["trace"] }
tracing = "0.1"
tracing-subscriber = "0.3"
serde = { version = "1", features = ["derive"] }
serde_json = "1"
mime_guess = "2"
qrcode = { version = "0.14", default-features = false, features = ["svg"] }
get_if_addrs = "0.5"
nix = { version = "0.28", features = ["term", "process", "fs", "signal"] }
libc = "0.2"
