[package]
name = "diffitrust"
version = "0.1.0"
edition = "2021"
publish = false

[dependencies]
similar = "2"
serde = { version = "1", features = ["derive"] }
toml = "0.8"
iced = { version = "0.13", default-features = false, features = ["canvas", "svg", "tokio", "tiny-skia"] }
futures = "0.3"
objc = "0.2"
