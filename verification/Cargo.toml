[package]
name = "multitest"
version = "0.1.0"
edition = "2021"
publish = false

[dependencies]
atty = "=0.2.14"
clap = "=2.34.0"
glob = "=0.3.4"
liquid = "=0.12.0"
regex = "=1.13.1"
shell-escape = "=0.1.5"
termcolor = "=1.4.1"
toml = { version = "=0.5.11", features = ["preserve_order"] }
