[package]
name = "travsr_tools"
version = "0.1.0"
edition = "2021"
publish = false

[dependencies]
ignore = "0.4"
serde_json = "1"
tracing = "0.1"
