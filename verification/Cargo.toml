[package]
name = "relaxed_queues"
version = "0.1.0"
edition = "2021"
publish = false

[dependencies]
rand = "0.8"
clap = { version = "4", features = ["derive"] }
core_affinity = "*"
jemallocator = "*"
haphazard = "*"
lockfree = "*"
