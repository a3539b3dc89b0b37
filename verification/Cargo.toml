[package]
name = "tracing_perfetto"
version = "0.1.0"
edition = "2021"
publish = false

[dependencies]
crossbeam-channel = "*"
crossbeam-queue = "*"
crossbeam-utils = "*"
dashmap = "*"
tracing = "*"
tracing-subscriber = "*"
