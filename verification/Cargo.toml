[package]
name = "mcai_worker_sdk"
version = "0.1.0"
edition = "2021"
publish = false
