[package]
name = "jupytypst"
version = "0.1.0"
edition = "2021"
publish = false

[dependencies]
typst = "=0.14.2"
typst-eval = "=0.14.2"
typst-html = "=0.14.2"
typst-layout = "=0.14.2"
typst-svg = "=0.14.2"
typst-assets = { version = "=0.14.2", features = ["fonts"] }
typst-kit = { version = "=0.14.2", default-features = false, features = ["fonts"] }
comemo = "0.5"
ecow = "0.2"
parking_lot = "0.12"
anyhow = "1"
clap = { version = "4", features = ["derive"] }
serde_json = "1"
tempfile = "3"
tokio = { version = "1", features = ["macros", "rt-multi-thread", "sync"] }
uuid = { version = "1", features = ["v4"] }
rustyline = "*"
jupyter-protocol = "*"
runtimelib = "*"
