[package]
name = "keymap_compiler"
version = "0.1.0"
edition = "2021"
publish = false

[dependencies]
chumsky = "*"
clap = { version = "*", features = ["derive"] }
clap_complete = "*"
clap_complete_nushell = "*"
indexmap = { version = "*", features = ["serde"] }
miette = { version = "*", features = ["derive", "fancy"] }
pad = "*"
patharg = "*"
pretty = "*"
serde = { version = "*", features = ["derive"] }
serde_yaml = "*"
thiserror = "*"
