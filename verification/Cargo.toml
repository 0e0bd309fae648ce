[package]
name = "rklipperscreen"
version = "0.1.0"
edition = "2021"
publish = false

[dependencies]
base64 = "0.22"
image = { version = "0.25", default-features = false, features = ["png"] }
rust-ini = "0.21"
gettext = "0.4"
minijinja = "2"
serde = { version = "1", features = ["derive"] }
serde_json = "1"
reqwest = { version = "0.12", default-features = false, features = ["json"] }
tokio = { version = "1", features = ["rt-multi-thread", "macros", "time"] }
tokio-tungstenite = "*"
futures-util = "0.3"
url = "2"
zbus = { version = "*", default-features = false, features = ["tokio"] }
tracing = "0.1"
libc = "0.2"
input = "*"
