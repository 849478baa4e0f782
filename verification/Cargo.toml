[package]
name = "rune_compiler"
version = "0.1.0"
edition = "2021"
publish = false

[dependencies]
serde_yaml = "*"
hotg-rune-core = "*"
hotg-rune-proc-blocks = "*"

[dev-dependencies]
toml = "*"
