[package]
name = "bitcoin"
version = "0.1.0"
edition = "2021"
publish = false

[dependencies]
ring = "0.17"
rand = "0.8"
bincode = "1.3"
serde = { version = "1", features = ["derive"] }
crossbeam = "0.8"
log = "0.4"
stderrlog = "*"
clap = "2.33"
