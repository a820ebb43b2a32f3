[package]
name = "chuhshell"
version = "0.1.0"
edition = "2021"
publish = false

[dependencies]
async-channel = "2"
gio = "*"
glib = "*"
glib-unix = "*"
gtk4 = "*"
gtk4-layer-shell = "*"
libc = "0.2"
serde = { version = "1", features = ["derive"] }
serde_json = "1"
