[package]
name = "jetscii"
version = "0.5.3"
edition = "2021"
publish = false

[dev-dependencies]
proptest = { version = "1", default-features = false, features = ["std"] }
