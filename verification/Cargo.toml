[package]
name = "xiss"
version = "0.1.0"
edition = "2021"
publish = false

[dependencies]
clap = { version = "*", features = ["derive"] }
color-eyre = "*"
crossbeam = "*"
ctrlc = "*"
notify-debouncer-mini = "*"
parking_lot = "*"
regex = "*"
serde = { version = "*", features = ["derive"] }
serde_json = "*"
swc_atoms = "*"
swc_common = "*"
swc_css = "*"
swc_error_reporters = "*"
tracing = "*"
tracing-subscriber = "*"
walkdir = "*"
