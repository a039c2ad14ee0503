[package]
name = "croc_look"
version = "0.1.0"
edition = "2021"
publish = false

[dependencies]
clap = { version = "*", features = ["derive"] }
crossbeam = "*"
crossterm = "*"
hotwatch = "*"
loading = "*"
proc-macro2 = "*"
syn = "*"
tui = "*"
