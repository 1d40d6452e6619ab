[package]
name = "span_recorder"
version = "0.1.0"
edition = "2021"
publish = false

[dependencies]
sentry = { version = "*", default-features = false }
sentry-tracing = "*"
tracing = "*"
tracing-subscriber = "*"
