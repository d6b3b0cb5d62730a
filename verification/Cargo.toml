[package]
name = "glyphplay"
version = "0.1.0"
edition = "2021"
publish = false

[dependencies]
color-eyre = "=0.6.5"
ndarray = "=0.17.2"
rodio = "=0.20.1"
tracing-subscriber = "=0.3.23"
video-rs = { version = "=0.12.0", features = ["ndarray"] }

[dev-dependencies]
ordered-float = "=5.5.0"
