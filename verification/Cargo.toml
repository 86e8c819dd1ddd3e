[package]
name = "zip_pad"
version = "0.1.0"
edition = "2021"
publish = false

[dependencies]
dialoguer = "=0.12.0"
rfd = { version = "=0.17.2", default-features = false, features = ["xdg-portal"] }
