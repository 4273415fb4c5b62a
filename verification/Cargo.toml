[package]
name = "rust_plug"
version = "0.1.0"
edition = "2021"
publish = false

[dependencies]
anyhow = "1"
clap = { version = "4", features = ["derive"] }
libc = "0.2"
libffi = "*"
winapi = { version = "0.3", features = ["libloaderapi", "minwindef"] }
