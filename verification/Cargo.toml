[package]
name = "milestone"
version = "0.1.0"
edition = "2021"
publish = false

[dependencies]
petgraph = "0.6"
rand = "0.8"
serde = { version = "1", features = ["derive"] }
bincode = "1"
chrono = "0.4"
rusqlite = "*"
log = "0.4"
log4rs = "1"
dotenv = "0.15"
rayon = "1"
separator = "*"
ordered-float = "*"
pyo3 = "0.18"
