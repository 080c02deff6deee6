[package]
name = "subnet_calculator"
version = "0.1.0"
edition = "2021"
publish = false

[dependencies]
ipnet = "2"
dioxus = { version = "0.6", features = ["web"] }
web-sys = { version = "0.3", features = ["Window", "Storage"] }
