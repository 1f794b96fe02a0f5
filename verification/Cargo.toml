[package]
name = "worklog"
version = "0.1.0"
edition = "2021"
publish = false

[dependencies]
chrono = "0.4"
clap = "2"
csv = "1"
serde = "1"
serde_derive = "1"
