[package]
name = "rnnoise4j"
version = "0.1.0"
edition = "2021"
publish = false

[dependencies]
jni = "0.21"
nnnoiseless = { version = "0.5", default-features = false }
