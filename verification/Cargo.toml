[package]
name = "loom"
version = "0.1.0"
edition = "2021"
publish = false

[dependencies]
lexopt = "0.3"
libc = "0.2"
serde = { version = "1", features = ["derive"] }
shlex = "1"
thiserror = "2"
toml_edit = { version = "0.22", features = ["serde"] }
