[package]
name = "thinkmate"
version = "0.1.0"
edition = "2021"
publish = false

[dependencies]
chrono = "0.4"
directories = "5"
iced = { version = "0.13", default-features = false, features = ["markdown", "highlighter", "tokio", "advanced"] }
iced_fonts = { version = "0.1", features = ["bootstrap"] }
ollama-rs = { version = "0.2", default-features = false, features = ["stream"] }
serde = { version = "1", features = ["derive"] }
serde_json = "1"
tokio = { version = "1", features = ["fs", "io-util", "net", "time", "rt"] }
tracing = "0.1"
ulid = { version = "1", features = ["serde"] }
url = "2"
