[package]
name = "schema_index"
version = "0.1.0"
edition = "2021"
publish = false

[dependencies]
globset = "*"
sha2 = "*"
path-clean = "*"
time = { version = "*", features = ["formatting"] }
serde = { version = "*", features = ["derive"] }
serde_json = "*"
anyhow = "*"
git2 = "*"
walkdir = "*"
structopt = "*"
reqwest = { version = "*", default-features = false, features = ["blocking", "json"] }

[dev-dependencies]
hex = "*"
regex = "*"
