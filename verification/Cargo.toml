[package]
name = "jianpu"
version = "0.1.0"
edition = "2021"
publish = false

[dependencies]
midly = "=0.5.3"
zip = { version = "2", default-features = false, features = ["deflate"] }
