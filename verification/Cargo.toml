[package]
name = "command_bot"
version = "0.1.0"
edition = "2021"
publish = false

[dependencies]
frankenstein = { version = "=0.52.1", default-features = false, features = ["client-ureq"] }
