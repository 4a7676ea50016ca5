[package]
name = "macos_launchd"
version = "0.1.0"
edition = "2021"
publish = false

[dependencies]
log = "0.4"
plist = "1"
serde = { version = "1", features = ["derive"] }
