[package]
name = "diff_filter"
version = "0.1.0"
edition = "2021"
publish = false

[dependencies]
anyhow = "1"
clap = "2.34"
serde_json = "1"
