[package]
name = "waywarp"
version = "0.1.3"
edition = "2021"
publish = false

[dependencies]
anyhow = "1"
cairo-rs = "*"
clap = { version = "4", features = ["derive"] }
libc = "0.2"
serde = { version = "1", features = ["derive"] }
serde_json = "1"
tracing = "0.1"
tracing-subscriber = "0.3"
wayland-client = "0.31"
wayland-protocols-wlr = { version = "0.3", features = ["client"] }
xkbcommon = "*"
