[package]
name = "sync_branch_deps"
version = "0.3.5"
edition = "2021"
publish = false

[dependencies]
anyhow = "1"
regex = "1"
serde_json = { version = "1", features = ["preserve_order"] }
serde_yaml = "0.9"
ureq = "*"
