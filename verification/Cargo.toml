[package]
name = "pick_full_wm"
version = "0.1.0"
edition = "2021"
publish = false

[dependencies]
x11rb = { version = "0.13", features = ["randr"] }
serde = { version = "1", features = ["derive"] }
toml = "*"
shellexpand = "*"
log = "0.4"
simplelog = "*"
chrono = "0.4"
