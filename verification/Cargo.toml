[package]
name = "git_workspace"
version = "0.1.0"
edition = "2021"
publish = false

[dependencies]
regex = "*"
globset = "*"
console = "*"
anyhow = "*"
clap = { version = "*", features = ["derive", "env"] }
indicatif = "*"
rayon = "*"
walkdir = "*"
fs_extra = "*"
serde = { version = "*", features = ["derive"] }
serde_json = "*"
toml = "*"
ureq = { version = "*", default-features = false }
atomic-counter = "*"
