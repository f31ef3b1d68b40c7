[package]
name = "nexusq"
version = "0.1.0"
edition = "2021"
publish = false

[dependencies]
event-listener = "2.5.3"
thiserror = "1"
