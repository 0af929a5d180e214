[package]
name = "rgit_lib"
version = "0.1.0"
edition = "2021"
publish = false

[dependencies]
chrono = "0.4"
rust-ini = "0.21"
sha1 = "0.10"
clap = { version = "4", features = ["derive"] }
