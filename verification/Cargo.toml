[package]
name = "nodejs_waiter"
version = "0.1.0"
edition = "2021"
publish = false

[dependencies]
colored = "=1.9.4"
