[package]
name = "stork"
version = "0.1.0"
edition = "2021"
publish = false

[dependencies]
byteorder = "1"
lamezip77 = "*"
uuid = { version = "1", features = ["v4"] }
rand = "0.9"
serde = { version = "1", features = ["derive"] }
serde_json = "1"
serde_yml = "*"
clap = { version = "4", features = ["derive"] }
ds-rom = "*"
log = "0.4"
simple-logging = "*"
log-panics = "*"
