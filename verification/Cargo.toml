[package]
name = "dsh_desktop"
version = "0.1.0"
edition = "2021"
publish = false

[dependencies]
libc = "0.2"
portable-pty = "0.9"
serde = { version = "1", features = ["derive"] }
serde_json = "1"
