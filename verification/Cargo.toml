[package]
name = "emu"
version = "0.1.0"
edition = "2021"
publish = false

[dependencies]
rand = "0.9"
anyhow = "1"
crossbeam = "0.8"
log = "0.4"
flexi_logger = "0.29"
comfy-table = "7"
ratatui = "0.29"
serde = { version = "1", features = ["derive"] }
toml = "0.8"
syn = { version = "2", features = ["full"] }
quote = "1"
proc-macro2 = "1"
