[package]
name = "cursor_clip"
version = "0.1.0"
edition = "2021"
publish = false

[dependencies]
tokio = { version = "*", features = ["rt-multi-thread", "net", "io-util", "sync", "macros", "time"] }
wayland-client = "*"
wayland-protocols-wlr = { version = "*", features = ["client"] }
libc = "*"

[dev-dependencies]
serde_json = "*"
