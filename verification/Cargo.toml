[package]
name = "async_executor"
version = "0.1.0"
edition = "2021"
publish = false

[dependencies]
spin = "0.9"
async-task = "3"
futures = "0.3"
async-channel = "2"
