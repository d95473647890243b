[package]
name = "create_rust_app_core"
version = "0.1.0"
edition = "2021"
publish = false

[dependencies]
clap = { version = "4", features = ["derive"] }
clap_complete = "4"
serde = { version = "1", features = ["derive"] }
serde_json = "1"
thiserror = "1"
toml_edit = "0.22"
ureq = "2"

[dev-dependencies]
tempfile = "3"
