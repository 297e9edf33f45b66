[package]
name = "ceh_quiz"
version = "0.1.0"
edition = "2021"
publish = false

[dependencies]
rand = "*"
url = "*"
colored = "*"
clipboard = "*"
rusqlite = { version = "*", features = ["bundled"] }
ollama-rs = "*"
tokio = { version = "*", features = ["rt-multi-thread"] }
