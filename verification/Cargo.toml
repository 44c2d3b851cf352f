[package]
name = "yarpgen"
version = "0.1.0"
edition = "2021"
publish = false

[dependencies]
csv = "=1.4.0"
heck = "=0.5.0"
idcontain = "=0.7.6"
indexmap = { version = "=2.14.2", features = ["serde"] }
itertools = "=0.15.0"
serde = { version = "=1.0.229", features = ["derive"] }
