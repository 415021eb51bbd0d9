[package]
name = "vortex_mod_vimeo"
version = "1.4.0"
edition = "2021"
publish = false

[dependencies]
extism-pdk = "1"
regex = "1"
serde = { version = "1", features = ["derive"] }
serde_json = { version = "1", features = ["preserve_order"] }
