[package]
name = "cs165"
version = "0.1.0"
edition = "2021"
publish = false

[dependencies]
rayon = "1"
serde = { version = "1", features = ["derive"] }
serde_bytes = "0.11"
bincode = "1"
bytemuck = "1"
csv = "1"
anyhow = "1"
atty = "0.2"
