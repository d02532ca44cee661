[package]
name = "rad_patch"
version = "0.1.0"
edition = "2021"
publish = false

[dependencies]
anyhow = "*"
git2 = { version = "*", default-features = false }
lexopt = "*"
serde = { version = "*", features = ["derive"] }
serde_json = "*"
url = "*"
