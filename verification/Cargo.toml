[package]
name = "rusty_jam"
version = "0.1.0"
edition = "2021"
publish = false

[dependencies]
ugli = "=0.3.1"
serde = { version = "1", features = ["derive"] }
