[package]
name = "deepseek_v2_lite"
version = "0.1.0"
edition = "2021"
publish = false

[dependencies]
anyhow = "1"
half = "2"
hex = "0.4"
safetensors = "0.5"
sha2 = "0.10"
tokio = { version = "1", default-features = false, features = ["sync"] }
