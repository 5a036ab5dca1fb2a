[package]
name = "workspace_patch"
version = "0.1.0"
edition = "2021"
publish = false

[dependencies]
cargo_metadata = "0.12"
itertools = "0.10"
structopt = "0.3"
url = "2"
