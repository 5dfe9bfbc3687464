[package]
name = "turnstile"
version = "0.3.0"
edition = "2021"
publish = false

[dependencies]
dispatch2 = "*"
inno = "*"
objc2 = "0.6"
objc2-app-kit = "0.3"
objc2-foundation = "0.3"
serde = { version = "1", features = ["derive"] }
serde_json = "1"
thiserror = "2"
time = { version = "0.3", features = ["parsing", "formatting"] }
ureq = "3"
