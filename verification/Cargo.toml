[package]
name = "notify"
version = "0.1.0"
edition = "2021"
publish = false

[dependencies]
notify-types = "2"
inotify = { version = "0.11", default-features = false }
walkdir = "2"
libc = "0.2"
