[package]
name = "delta_routes"
version = "0.1.0"
edition = "2021"
publish = false

[dependencies]
rocket = "=0.5.1"
rocket_okapi = "=0.9.0"
schemars = "=0.8.22"
serde_json = "=1.0.154"
