[package]
name = "scan-dwarf"
version = "0.1.0"
edition = "2021"
publish = false

[dependencies]
anyhow = "*"
fallible-iterator = "*"
getopts = "*"
gimli = "*"
itertools = "*"
memmap2 = "*"
object = "*"
serde = { version = "*", features = ["derive"] }
serde_json = "*"
typed-arena = "*"
