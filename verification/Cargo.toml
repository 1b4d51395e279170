[package]
name = "mdv"
version = "0.1.0"
edition = "2021"
publish = false

[dependencies]
pulldown-cmark = { version = "=0.13.6", default-features = false }
unicode-width = "=0.2.3"
unicode-normalization = "=0.1.26"
syntect = { version = "=5.3.0", default-features = false, features = ["default-fancy"] }
ratatui = "=0.30.2"
crossterm = "=0.29.0"
ratatui-image = { version = "=11.1.0", default-features = false, features = ["crossterm", "image-defaults"] }
image = "=0.25.10"
clap = { version = "=4.6.7", features = ["derive"] }
anyhow = "=1.0.104"
directories = "=6.0.0"
env_logger = "=0.11.11"
log = "=0.4.35"
serde = { version = "=1.0.229", features = ["derive"] }
toml = "=1.1.8"
