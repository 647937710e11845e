[package]
name = "cyberkent"
version = "0.1.0"
edition = "2021"
publish = false

[dependencies]
slint = { version = "1", default-features = false, features = ["std", "compat-1-2"] }
libloading = "0.8"
ndk-context = "0.1"
