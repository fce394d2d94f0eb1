[package]
name = "showbits"
version = "0.1.0"
edition = "2021"
publish = false

[dependencies]
anyhow = "=1.0.104"
axum = { version = "=0.8.9", features = ["multipart"] }
chrono = { version = "0.4", default-features = false }
clap = { version = "4", features = ["derive"] }
cosmic-text = "=0.11.2"
escpos = "=0.12.2"
image = { version = "=0.25.10", default-features = false, features = ["png", "jpeg"] }
jiff = "=0.2.38"
mime_guess = "2"
palette = "=0.7.7"
paste = "1"
rand = "=0.9.5"
reqwest = { version = "=0.12.28", default-features = false, features = ["json"] }
serde = { version = "1", features = ["derive"] }
serde_json = "1"
sunrise = "2"
taffy = "=0.7.7"
tokio = { version = "=1.54.1", features = ["rt-multi-thread", "net", "sync", "time"] }
typst = "=0.13.1"
typst-assets = { version = "=0.13.1", features = ["fonts"] }
typst-render = "=0.13.1"
wasm-minimal-protocol = "0.1"
