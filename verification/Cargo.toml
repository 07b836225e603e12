[package]
name = "mksite"
version = "0.1.0"
edition = "2021"
publish = false

[dependencies]
shell-words = "1"
clap = { version = "4", features = ["derive"] }
colored = "*"
fern = "*"
log = "0.4"
maplit = "1"
serde = { version = "1", features = ["derive"] }
tera = "1"
thiserror = "*"
toml = "*"
