[package]
name = "apple_speech"
version = "0.1.0"
edition = "2021"
publish = false

[dependencies]
block = "=0.1.6"
cocoa = { version = "=0.26.1", default-features = false }
hound = "=3.5.1"
objc = "=0.2.7"
tauri = { version = "=2.12.5", default-features = false }
