[package]
name = "mac-wallpaper-tui"
version = "0.1.0"
edition = "2021"
publish = false

[dependencies]
anyhow = "1"
base64 = "0.22"
crossterm = "0.28"
dirs = "5"
image = { version = "0.25", default-features = false, features = ["jpeg", "png", "webp"] }
rand = "0.8"
ratatui = "0.29"
ratatui-image = { version = "8", default-features = false, features = ["crossterm"] }
rusqlite = { version = "0.32", features = ["bundled"] }
serde = { version = "1", features = ["derive"] }
tokio = { version = "1", features = ["full"] }
toml = "0.8"
