[package]
name = "dedupe"
version = "0.1.0"
edition = "2021"
publish = false

[dependencies]
paw = "=1.0.0"
promptly = "=0.3.1"
structopt = { version = "=0.3.26", features = ["paw"] }
