[package]
name = "portalino"
version = "0.1.0"
edition = "2021"
publish = false

[dependencies]
nfq = "*"
network-interface = "*"
aargvark = "*"
loga = "*"
serde = { version = "*", features = ["derive"] }
serde_json = "*"
rand = "*"
tempfile = "*"
