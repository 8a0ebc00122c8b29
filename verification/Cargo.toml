[package]
name = "sql_doctester"
version = "0.1.0"
edition = "2021"
publish = false

[dependencies]
anyhow = "1"
atty = "0.2"
clap = { version = "3", features = ["derive"] }
futures = "0.3"
ignore = "0.4"
nix = "0.24"
once_cell = "1"
tempfile = "3"
termcolor = "1"
tokio = { version = "1", features = ["rt-multi-thread", "macros", "sync"] }
tokio-postgres = "=0.7.7"
xshell = "0.2"
