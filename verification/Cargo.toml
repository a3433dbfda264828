[package]
name = "ratch_job"
version = "0.1.0"
edition = "2021"
publish = false

[dependencies]
actix = "0.13"
anyhow = "1"
bean_factory = "*"
log = "0.4"
reqwest = { version = "0.12", default-features = false }
