[package]
name = "gemini_client"
version = "0.1.0"
edition = "2021"
publish = false

[dependencies]
clap = "2"
native-tls = "0.2"
url = "2"
