[package]
name = "procon_bundler"
version = "0.2.0"
edition = "2021"
publish = false

[dependencies]
toml = "*"
clap = { version = "*", features = ["derive"] }
glob = "*"
itertools = "*"
thiserror = "*"
