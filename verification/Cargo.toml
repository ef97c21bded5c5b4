[package]
name = "citycam"
version = "0.1.0"
edition = "2021"
publish = false

[dependencies]
anyhow = "*"
chrono = "*"
clap = { version = "*", features = ["derive"] }
dirs = "*"
ffmpeg-next = "*"
image = "=0.25.10"
m3u8-rs = "*"
libc = "*"
rand = "=0.10.3"
rand_distr = "=0.6.0"
regex = "*"
reqwest = { version = "*", default-features = false, features = ["blocking", "rustls-tls"] }
serde = { version = "*", features = ["derive"] }
serde_json = "*"
tempfile = "*"
wallpaper = "*"
