[package]
name = "rust_chat"
version = "0.1.0"
edition = "2021"
publish = false

[dependencies]
termion = "*"
text_io = "*"
tokio = { version = "*", features = ["sync", "rt-multi-thread", "macros", "time"] }
