[package]
name = "cocotte"
version = "0.1.0"
edition = "2021"
publish = false

[dependencies]
clap = "*"
config = "*"
dirs = "*"
handlebars = "*"
palette = "*"
serde_json = "*"
xdg = "*"
