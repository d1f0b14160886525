[package]
name = "carapace_shortcutter"
version = "0.1.0"
edition = "2021"
publish = false

[dependencies]
anyhow = "1"
clap = { version = "4", features = ["derive"] }
directories = "*"
mlua = { version = "0.10", features = ["lua54", "vendored"] }
serde_json = "1"
