[package]
name = "cxa"
version = "0.1.0"
edition = "2021"
publish = false

[dependencies]
anstream = "*"
anstyle = "1"
base64 = "0.22"
chrono = "0.4"
clap = { version = "4", features = ["derive"] }
crossterm = "*"
libc = "0.2"
nix = { version = "*", features = ["fs", "poll", "user"] }
serde = { version = "1", features = ["derive"] }
serde_json = "1"
tempfile = "3"
tungstenite = "*"
