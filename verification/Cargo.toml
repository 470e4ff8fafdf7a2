[package]
name = "ttfm"
version = "0.1.0"
edition = "2021"
publish = false

[dependencies]
anyhow = "1"
chrono = "0.4"
clap = { version = "4", features = ["derive"] }
console = "0.15"
dirs = "*"
duckdb = "1"
file-id = "0.2"
filetime = "0.2"
fs4 = "*"
ignore = "0.4"
indicatif = "0.17"
infer = "*"
path-slash = "0.2"
rayon = "1"
reedline = "*"
rustc-hash = "2"
sea-query = "0.32"
serde = { version = "1", features = ["derive"] }
terminal_size = "*"
toml = "*"
uuid = "1"
walkdir = "2"
