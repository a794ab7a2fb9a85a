[package]
name = "cliphist"
version = "0.1.0"
edition = "2021"
publish = false

[dependencies]
regex = "1"
sha2 = "0.10"
rusqlite = { version = "0.31", features = ["bundled"] }
x11-clipboard = "0.9"
x11rb = "0.13"
libc = "0.2"
gtk = "0.18"
