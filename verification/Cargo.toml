[package]
name = "clim"
version = "0.1.0"
edition = "2021"
publish = false

[dependencies]
colored = "*"
dirs = "*"
indexmap = "*"
notify = "*"
open = "*"
pathdiff = "*"
serde = { version = "*", features = ["derive"] }
structopt = "*"
thiserror = "*"
toml = "*"
walkdir = "*"
xmltree = "*"
