[package]
name = "doggo_core"
version = "0.1.0"
edition = "2021"
publish = false

[dependencies]
clap = "*"
clap_derive = "*"
depfile = "*"
im = "*"
serde = "*"
thiserror = "*"
toml = "*"
which = "*"
