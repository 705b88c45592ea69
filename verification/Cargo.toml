[package]
name = "git_global"
version = "0.1.0"
edition = "2021"
publish = false

[dependencies]
colored = "2"
chrono = "0.4"
serde = { version = "1", features = ["derive"] }
serde_json = "1"
git2 = { version = "0.19", default-features = false }
dirs = "5"
app_dirs = "1"
jwalk = "0.8"
walkdir = "2"
clap = "2"
anyhow = "1"
thiserror = "1"
subprocess = "0.2"
config = "0.11"
cursive = { version = "0.20", default-features = false, features = ["crossterm-backend"] }

[dev-dependencies]
itertools = "0.10"
